//! The registry client's decision logic.  The remote registry is a static
//! file tree: any path ending in `/` is a directory whose listing can be
//! fetched.  Everything here is pure computation on listings that the
//! caller has already fetched: classification of root entries, discovery
//! of version archives in bucket listings, and the sort/dedup/limit
//! pipeline of version enumeration.

use vstd::prelude::*;
use vstd::multiset::Multiset;

use crate::chars::{
    lex_le, rfind_char, lemma_rfind_char, lemma_lex_le_transitive, lemma_lex_le_total, str_eq,
    str_lex_le, chars_vec, string_from_chars,
};
use crate::semver::{
    SemVer, VersionModel, spec_parse, fits_u64, parse_version, version_le, version_full_lt,
    version_full_le, semver_eq, version_full_le_exec, lemma_version_full_lt_props,
    lemma_version_full_le_trans, lemma_version_full_le_refines,
};

verus! {

// ---------------------------------------------------------------------------
// Listing entries and discovered versions
// ---------------------------------------------------------------------------

/// One node of a remote directory listing: a path (directories end in
/// `/`) and its modification time in microseconds since the epoch.
#[derive(Debug)]
pub struct File {
    pub path: String,
    pub last_modified_micros: i64,
}

/// A version discovered in a bucket listing, annotated with the archive's
/// modification time.  Ordering and equality go strictly by the version;
/// the timestamp is informational only.
#[derive(Debug)]
pub struct PackageVersion {
    pub last_modified_micros: i64,
    pub version: SemVer,
}

/// The mathematical model of a discovered version.
pub ghost struct PackageVersionModel {
    pub last_modified_micros: int,
    pub version: VersionModel,
}

pub open spec fn pv_model(pv: PackageVersion) -> PackageVersionModel {
    PackageVersionModel {
        last_modified_micros: pv.last_modified_micros as int,
        version: pv.version.model(),
    }
}

pub open spec fn pv_models(s: Seq<PackageVersion>) -> Seq<PackageVersionModel> {
    s.map_values(|pv: PackageVersion| pv_model(pv))
}

/// Ordering of discovered versions: by version precedence alone.
pub open spec fn pv_le(a: PackageVersion, b: PackageVersion) -> bool {
    version_le(a.version.model(), b.version.model())
}

/// Deduplication equality: equal versions outright.
pub open spec fn pv_eq(a: PackageVersion, b: PackageVersion) -> bool {
    a.version.model() == b.version.model()
}

pub open spec fn versions_sorted(s: Seq<PackageVersion>) -> bool {
    forall|i: int, j: int| 0 <= i < j < s.len() ==> pv_le(#[trigger] s[i], #[trigger] s[j])
}

/// The total order sorting uses: precedence, then build identifiers, so
/// that equal versions are always adjacent and deduplication removes
/// every duplicate.  It refines `pv_le`.
pub open spec fn pv_full_le(a: PackageVersion, b: PackageVersion) -> bool {
    version_full_le(a.version.model(), b.version.model())
}

pub open spec fn versions_sorted_full(s: Seq<PackageVersion>) -> bool {
    forall|i: int, j: int| 0 <= i < j < s.len() ==> pv_full_le(#[trigger] s[i], #[trigger] s[j])
}

/// The microsecond timestamp of a listing entry, from its epoch seconds
/// and microsecond remainder as the registry reports them.
pub fn timestamp_micros(epoch: i32, us: i32) -> (r: i64)
    ensures
        r as int == epoch as int * 1000000 + us as int,
{
    (epoch as i64) * 1000000 + (us as i64)
}

// ---------------------------------------------------------------------------
// The registry and its listing locations
// ---------------------------------------------------------------------------

/// A remote registry: its base location, the top-level directories that
/// are packages themselves, and the reserved directories excluded from
/// package discovery.
pub struct Registry {
    pub url: String,
    pub known_packages: Vec<String>,
    pub excluded: Vec<String>,
}

impl Default for Registry {
    fn default() -> (r: Self)
        ensures
            r.url@ == "https://get.greycat.io/files"@,
            r.known_packages@.len() == 2,
            r.known_packages@[0]@ == "core/"@,
            r.known_packages@[1]@ == "lang/"@,
            r.excluded@.len() == 1,
            r.excluded@[0]@ == "deps/"@,
    {
        let mut known: Vec<String> = Vec::new();
        known.push(String::from_str("core/"));
        known.push(String::from_str("lang/"));
        let mut excluded: Vec<String> = Vec::new();
        excluded.push(String::from_str("deps/"));
        Registry {
            url: String::from_str("https://get.greycat.io/files"),
            known_packages: known,
            excluded,
        }
    }
}

impl Registry {
    /// `"{url}/"`: the root listing location.
    pub fn root_listing_url(&self) -> (r: String)
        ensures
            r@ == self.url@ + "/"@,
    {
        let mut s = self.url.clone();
        s.append("/");
        s
    }

    /// `"{url}/{name}/"`: the branch listing location of one package.
    pub fn package_listing_url(&self, name: &str) -> (r: String)
        ensures
            r@ == self.url@ + "/"@ + name@ + "/"@,
    {
        let mut s = self.url.clone();
        s.append("/");
        s.append(name);
        s.append("/");
        proof {
            assert(s@ =~= self.url@ + "/"@ + name@ + "/"@);
        }
        s
    }

    /// `"{url}/{name}/{branch}/"`: the version listing location of one
    /// branch.
    pub fn branch_listing_url(&self, name: &str, branch: &str) -> (r: String)
        ensures
            r@ == self.url@ + "/"@ + name@ + "/"@ + branch@ + "/"@,
    {
        let mut s = self.url.clone();
        s.append("/");
        s.append(name);
        s.append("/");
        s.append(branch);
        s.append("/");
        proof {
            assert(s@ =~= self.url@ + "/"@ + name@ + "/"@ + branch@ + "/"@);
        }
        s
    }

    /// `"{url}/{path}"`: the location of one listed entry.
    pub fn entry_url(&self, path: &str) -> (r: String)
        ensures
            r@ == self.url@ + "/"@ + path@,
    {
        let mut s = self.url.clone();
        s.append("/");
        s.append(path);
        proof {
            assert(s@ =~= self.url@ + "/"@ + path@);
        }
        s
    }
}

/// The remote operations that can fail, for error mapping.
#[derive(Clone, Copy, PartialEq, Eq, Structural, Debug)]
pub enum FetchOp {
    /// Fetching or parsing the registry root listing.
    Root,
    /// Fetching a package's branch listing.
    Branches,
    /// Fetching a branch, architecture, or bucket listing during version
    /// enumeration.
    Versions,
    /// Fetching the distinguished `latest` resource.
    Latest,
    /// Retrieving a version archive.
    Download,
}

/// The error a failed remote operation surfaces as.
pub fn fetch_error(op: FetchOp) -> (r: crate::Error)
    ensures
        op == FetchOp::Root ==> r == crate::Error::RegistryUnreachable,
        op == FetchOp::Branches ==> r == crate::Error::PackageNotFound,
        op == FetchOp::Versions ==> r == crate::Error::PackageNotFound,
        op == FetchOp::Latest ==> r == crate::Error::LatestNotFound,
        op == FetchOp::Download ==> r == crate::Error::DownloadFailed,
{
    match op {
        FetchOp::Root => crate::Error::RegistryUnreachable,
        FetchOp::Branches => crate::Error::PackageNotFound,
        FetchOp::Versions => crate::Error::PackageNotFound,
        FetchOp::Latest => crate::Error::LatestNotFound,
        FetchOp::Download => crate::Error::DownloadFailed,
    }
}

// ---------------------------------------------------------------------------
// Package discovery: classifying the root listing
// ---------------------------------------------------------------------------

/// How one root-listing entry is treated when listing packages.
#[derive(Clone, Copy, PartialEq, Eq, Structural, Debug)]
pub enum RootEntryClass {
    /// A known top-level package directory: included directly.
    Known,
    /// A reserved directory: never a package, never expanded.
    Excluded,
    /// Any other directory: a namespace, expanded one level deeper.
    Namespace,
    /// Not a directory: takes no part in package discovery.
    Other,
}

pub open spec fn seq_contains_str(l: Seq<Seq<char>>, s: Seq<char>) -> bool {
    exists|i: int| 0 <= i < l.len() && l[i] == s
}

fn contains_string(l: &Vec<String>, s: &str) -> (r: bool)
    ensures
        r == seq_contains_str(l@.map_values(|t: String| t@), s@),
{
    let ghost mapped = l@.map_values(|t: String| t@);
    let n = l.len();
    let mut i: usize = 0;
    while i < n
        invariant
            n == l@.len(),
            i <= n,
            mapped == l@.map_values(|t: String| t@),
            forall|j: int| 0 <= j < i ==> mapped[j] != s@,
        decreases n - i,
    {
        if str_eq(l[i].as_str(), s) {
            proof {
                assert(mapped[i as int] == s@);
            }
            return true;
        }
        i = i + 1;
    }
    false
}

impl Registry {
    pub open spec fn known_seqs(self) -> Seq<Seq<char>> {
        self.known_packages@.map_values(|s: String| s@)
    }

    pub open spec fn excluded_seqs(self) -> Seq<Seq<char>> {
        self.excluded@.map_values(|s: String| s@)
    }

    pub open spec fn spec_classify(self, path: Seq<char>) -> RootEntryClass {
        if seq_contains_str(self.known_seqs(), path) {
            RootEntryClass::Known
        } else if seq_contains_str(self.excluded_seqs(), path) {
            RootEntryClass::Excluded
        } else if path.len() > 0 && path[path.len() - 1] == '/' {
            RootEntryClass::Namespace
        } else {
            RootEntryClass::Other
        }
    }

    /// Classifies one root-listing entry for package discovery.
    pub fn classify(&self, path: &str) -> (r: RootEntryClass)
        ensures
            r == self.spec_classify(path@),
    {
        if contains_string(&self.known_packages, path) {
            return RootEntryClass::Known;
        }
        if contains_string(&self.excluded, path) {
            return RootEntryClass::Excluded;
        }
        let n = path.unicode_len();
        if n > 0 && path.get_char(n - 1) == '/' {
            return RootEntryClass::Namespace;
        }
        RootEntryClass::Other
    }

    /// The namespace directories of the root listing, in order.
    pub open spec fn spec_namespaces(self, entries: Seq<File>) -> Seq<Seq<char>>
        decreases entries.len(),
    {
        if entries.len() == 0 {
            Seq::empty()
        } else {
            self.spec_namespaces(entries.drop_last()) + (if self.spec_classify(
                entries.last().path@,
            ) == RootEntryClass::Namespace {
                seq![entries.last().path@]
            } else {
                Seq::<Seq<char>>::empty()
            })
        }
    }

    /// The known package entries of the root listing, in order.
    pub open spec fn spec_direct(self, entries: Seq<File>) -> Seq<File>
        decreases entries.len(),
    {
        if entries.len() == 0 {
            Seq::empty()
        } else {
            self.spec_direct(entries.drop_last()) + (if self.spec_classify(entries.last().path@)
                == RootEntryClass::Known {
                seq![entries.last()]
            } else {
                Seq::<File>::empty()
            })
        }
    }

    /// The namespace directories of the root listing, to be expanded one
    /// level deeper by the caller.
    pub fn expansion_targets(&self, entries: &Vec<File>) -> (r: Vec<String>)
        ensures
            r@.map_values(|s: String| s@) == self.spec_namespaces(entries@),
    {
        let n = entries.len();
        let mut r: Vec<String> = Vec::new();
        let mut i: usize = 0;
        while i < n
            invariant
                n == entries@.len(),
                i <= n,
                r@.map_values(|s: String| s@) == self.spec_namespaces(entries@.subrange(0, i as int)),
            decreases n - i,
        {
            let c = self.classify(entries[i].path.as_str());
            proof {
                assert(entries@.subrange(0, i + 1).drop_last() =~= entries@.subrange(0, i as int));
                assert(entries@.subrange(0, i + 1).last() == entries@[i as int]);
            }
            if c == RootEntryClass::Namespace {
                r.push(entries[i].path.clone());
            }
            proof {
                assert(r@.map_values(|s: String| s@) =~= self.spec_namespaces(
                    entries@.subrange(0, i + 1),
                ));
            }
            i = i + 1;
        }
        proof {
            assert(entries@.subrange(0, n as int) =~= entries@);
        }
        r
    }
}

/// Whether the registry nests an additional per-architecture directory
/// level between branch and version buckets; only the `core` package,
/// which ships native binaries, does.
pub fn needs_arch_level(name: &str) -> (r: bool)
    ensures
        r == (name@ == "core"@),
{
    str_eq(name, "core")
}

// ---------------------------------------------------------------------------
// Bucket discovery and version collection
// ---------------------------------------------------------------------------

/// The directory children of a listing, in order.
pub open spec fn spec_dir_children(entries: Seq<File>) -> Seq<Seq<char>>
    decreases entries.len(),
{
    if entries.len() == 0 {
        Seq::empty()
    } else {
        spec_dir_children(entries.drop_last()) + (if is_dir_path(entries.last().path@) {
            seq![entries.last().path@]
        } else {
            Seq::<Seq<char>>::empty()
        })
    }
}

pub open spec fn is_dir_path(p: Seq<char>) -> bool {
    p.len() > 0 && p[p.len() - 1] == '/'
}

/// The paths of the directory entries of one listing: the next level of
/// the traversal.
pub fn directory_children(entries: &Vec<File>) -> (r: Vec<String>)
    ensures
        r@.map_values(|s: String| s@) == spec_dir_children(entries@),
{
    let n = entries.len();
    let mut r: Vec<String> = Vec::new();
    let mut i: usize = 0;
    while i < n
        invariant
            n == entries@.len(),
            i <= n,
            r@.map_values(|s: String| s@) == spec_dir_children(entries@.subrange(0, i as int)),
        decreases n - i,
    {
        let p = &entries[i].path;
        let pn = p.unicode_len();
        proof {
            assert(entries@.subrange(0, i + 1).drop_last() =~= entries@.subrange(0, i as int));
            assert(entries@.subrange(0, i + 1).last() == entries@[i as int]);
        }
        if pn > 0 && p.get_char(pn - 1) == '/' {
            r.push(p.clone());
        }
        proof {
            assert(r@.map_values(|s: String| s@) =~= spec_dir_children(
                entries@.subrange(0, i + 1),
            ));
        }
        i = i + 1;
    }
    proof {
        assert(entries@.subrange(0, n as int) =~= entries@);
    }
    r
}

/// Whether a path names a version archive.
pub open spec fn ends_zip(p: Seq<char>) -> bool {
    p.len() >= 4 && p[p.len() - 4] == '.' && p[p.len() - 3] == 'z' && p[p.len() - 2] == 'i'
        && p[p.len() - 1] == 'p'
}

/// The version text of an archive path: the last path segment, without
/// its `.zip` suffix.
pub open spec fn zip_stem(p: Seq<char>) -> Seq<char> {
    let base = p.subrange(0, p.len() - 4);
    let i = rfind_char(base, '/');
    if i < 0 {
        base
    } else {
        base.subrange(i + 1, base.len() as int)
    }
}

/// The version one listing entry contributes: its archive stem, when that
/// parses as a semantic version whose numbers are representable.
pub open spec fn entry_version(p: Seq<char>) -> Option<VersionModel> {
    if ends_zip(p) {
        match spec_parse(zip_stem(p)) {
            Some(m) => if fits_u64(m) {
                Some(m)
            } else {
                None
            },
            None => None,
        }
    } else {
        None
    }
}

/// The versions contributed by a whole bucket listing, in order.
pub open spec fn spec_collect(entries: Seq<File>) -> Seq<PackageVersionModel>
    decreases entries.len(),
{
    if entries.len() == 0 {
        Seq::empty()
    } else {
        spec_collect(entries.drop_last()) + (match entry_version(entries.last().path@) {
            Some(m) => seq![
                PackageVersionModel {
                    last_modified_micros: entries.last().last_modified_micros as int,
                    version: m,
                },
            ],
            None => Seq::<PackageVersionModel>::empty(),
        })
    }
}

fn vec_rfind_slash(v: &Vec<char>, upto: usize) -> (r: Option<usize>)
    requires
        upto <= v@.len(),
    ensures
        match r {
            Some(i) => i < upto && rfind_char(v@.subrange(0, upto as int), '/') == i as int,
            None => rfind_char(v@.subrange(0, upto as int), '/') == -1,
        },
{
    let ghost base = v@.subrange(0, upto as int);
    let mut i: usize = upto;
    while i > 0
        invariant
            i <= upto <= v@.len(),
            base == v@.subrange(0, upto as int),
            forall|j: int| i <= j < upto ==> base[j] != '/',
        decreases i,
    {
        i = i - 1;
        if v[i] == '/' {
            proof {
                lemma_rfind_char(base, '/');
                let f = rfind_char(base, '/');
                assert(base[i as int] == '/');
                if f == -1 {
                    assert(base[i as int] != '/');
                }
                if f != -1 && f < i as int {
                    assert(base[i as int] != '/');
                }
                if f != -1 && f > i as int {
                    assert(base[f] != '/');
                }
            }
            return Some(i);
        }
    }
    proof {
        lemma_rfind_char(base, '/');
        if rfind_char(base, '/') != -1 {
            assert(base[rfind_char(base, '/')] != '/');
        }
    }
    None
}

/// Appends the version of every archive entry of one bucket listing;
/// entries that do not parse as semantic versions are silently skipped.
pub fn collect_zip_versions(entries: &Vec<File>, versions: &mut Vec<PackageVersion>)
    ensures
        pv_models(final(versions)@) == pv_models(old(versions)@) + spec_collect(entries@),
{
    let n = entries.len();
    let mut i: usize = 0;
    while i < n
        invariant
            n == entries@.len(),
            i <= n,
            pv_models(versions@) == pv_models(old(versions)@) + spec_collect(
                entries@.subrange(0, i as int),
            ),
        decreases n - i,
    {
        proof {
            assert(entries@.subrange(0, i + 1).drop_last() =~= entries@.subrange(0, i as int));
            assert(entries@.subrange(0, i + 1).last() == entries@[i as int]);
        }
        let p = &entries[i].path;
        let cs = chars_vec(p.as_str());
        let cn = cs.len();
        if cn >= 4 && cs[cn - 4] == '.' && cs[cn - 3] == 'z' && cs[cn - 2] == 'i' && cs[cn - 1]
            == 'p' {
            proof {
                assert(ends_zip(p@));
            }
            let base_len = cn - 4;
            let start = match vec_rfind_slash(&cs, base_len) {
                Some(k) => k + 1,
                None => 0,
            };
            let stem = string_from_chars(&cs, start, base_len);
            proof {
                let base = cs@.subrange(0, base_len as int);
                if rfind_char(base, '/') < 0 {
                    assert(stem@ =~= zip_stem(p@));
                } else {
                    assert(base.subrange(
                        rfind_char(base, '/') + 1,
                        base.len() as int,
                    ) =~= cs@.subrange(rfind_char(base, '/') + 1, base_len as int));
                    assert(stem@ =~= zip_stem(p@));
                }
            }
            match parse_version(stem.as_str()) {
                Ok(v) => {
                    proof {
                        let m = v.model();
                        assert(m.major <= u64::MAX);
                        assert forall|k: int| 0 <= k < m.pre.len() implies crate::semver::ident_fits(
                            #[trigger] m.pre[k],
                        ) by {
                            assert(m.pre[k] == crate::semver::pre_ident_model(v.pre@[k]));
                        }
                        assert(fits_u64(m));
                        assert(entry_version(p@) == Some(m));
                    }
                    let pv = PackageVersion {
                        last_modified_micros: entries[i].last_modified_micros,
                        version: v,
                    };
                    let ghost pvm = pv_model(pv);
                    let ghost before = versions@;
                    versions.push(pv);
                    proof {
                        assert(versions@ == before.push(pv));
                        assert(pv_models(versions@) =~= pv_models(before).push(pvm));
                        assert(spec_collect(entries@.subrange(0, i + 1)) == spec_collect(
                            entries@.subrange(0, i as int),
                        ) + seq![pvm]);
                        assert(pv_models(versions@) =~= pv_models(old(versions)@) + spec_collect(
                            entries@.subrange(0, i + 1),
                        ));
                    }
                },
                Err(_) => {
                    proof {
                        assert(entry_version(p@) is None);
                        assert(pv_models(versions@) =~= pv_models(old(versions)@) + spec_collect(
                            entries@.subrange(0, i + 1),
                        ));
                    }
                },
            }
        } else {
            proof {
                assert(!ends_zip(p@));
                assert(pv_models(versions@) =~= pv_models(old(versions)@) + spec_collect(
                    entries@.subrange(0, i + 1),
                ));
            }
        }
        i = i + 1;
    }
    proof {
        assert(entries@.subrange(0, n as int) =~= entries@);
        assert(pv_models(versions@) =~= pv_models(old(versions)@) + spec_collect(entries@));
    }
}

// ---------------------------------------------------------------------------
// Multiset facts used by the sorting proofs
// ---------------------------------------------------------------------------

proof fn lemma_tm_empty<A>(s: Seq<A>)
    requires
        s.len() == 0,
    ensures
        s.to_multiset() =~= Multiset::<A>::empty(),
{
    broadcast use vstd::seq_lib::group_to_multiset_ensures;

    assert forall|y: A| s.to_multiset().count(y) == 0 by {
        if s.to_multiset().count(y) > 0 {
            assert(s.contains(y));
        }
    }
}

proof fn lemma_tm_singleton<A>(x: A)
    ensures
        seq![x].to_multiset() =~= Multiset::<A>::empty().insert(x),
{
    broadcast use vstd::seq_lib::group_to_multiset_ensures;

    lemma_tm_empty(Seq::<A>::empty());
    assert(seq![x] =~= Seq::<A>::empty().push(x));
    assert(Seq::<A>::empty().push(x).to_multiset() =~= Seq::<A>::empty().to_multiset().insert(x));
}

proof fn lemma_tm_insert<A>(s: Seq<A>, k: int, x: A)
    requires
        0 <= k <= s.len(),
    ensures
        s.insert(k, x).to_multiset() =~= s.to_multiset().insert(x),
{
    broadcast use vstd::seq_lib::group_to_multiset_ensures;

    let a = s.subrange(0, k);
    let b = s.subrange(k, s.len() as int);
    assert(s =~= a + b);
    assert(s.insert(k, x) =~= a + (seq![x] + b));
    vstd::seq_lib::lemma_multiset_commutative(a, b);
    vstd::seq_lib::lemma_multiset_commutative(a, seq![x] + b);
    vstd::seq_lib::lemma_multiset_commutative(seq![x], b);
    lemma_tm_singleton(x);
}

// ---------------------------------------------------------------------------
// The version pipeline: sort ascending, dedup adjacent, keep the highest
// ---------------------------------------------------------------------------

/// Sorts discovered versions ascending: by version precedence, with the
/// build identifiers as a tie-break among precedence-equal versions.
pub fn sort_versions(v: Vec<PackageVersion>) -> (r: Vec<PackageVersion>)
    ensures
        versions_sorted_full(r@),
        versions_sorted(r@),
        r@.to_multiset() == v@.to_multiset(),
{
    let ghost orig = v@;
    let mut input = v;
    let mut out: Vec<PackageVersion> = Vec::new();
    proof {
        lemma_tm_empty(out@);
        assert(out@.to_multiset().add(input@.to_multiset()) =~= orig.to_multiset());
    }
    while input.len() > 0
        invariant
            versions_sorted_full(out@),
            out@.to_multiset().add(input@.to_multiset()) == orig.to_multiset(),
        decreases input@.len(),
    {
        let ghost in_before = input@;
        let x = input.pop().unwrap();
        proof {
            broadcast use vstd::seq_lib::group_to_multiset_ensures;

            assert(in_before =~= input@.push(x));
            assert(in_before.to_multiset() =~= input@.to_multiset().insert(x));
        }
        let mut k: usize = 0;
        while k < out.len() && version_full_le_exec(&out[k].version, &x.version)
            invariant
                k <= out@.len(),
                forall|j: int| 0 <= j < k ==> pv_full_le(#[trigger] out@[j], x),
            decreases out@.len() - k,
        {
            k = k + 1;
        }
        let ghost out_before = out@;
        out.insert(k, x);
        proof {
            lemma_tm_insert(out_before, k as int, x);
            assert(out@.to_multiset().add(input@.to_multiset()) =~= orig.to_multiset());
            assert forall|i: int, j: int| 0 <= i < j < out@.len() implies pv_full_le(
                out@[i],
                out@[j],
            ) by {
                if j < k {
                } else if i < k && j == k {
                } else if i < k && j > k {
                    assert(out@[j] == out_before[j - 1]);
                } else if i == k && j > k {
                    assert(out@[j] == out_before[j - 1]);
                    assert(k < out_before.len());
                    assert(!pv_full_le(out_before[k as int], x));
                    lemma_version_full_lt_props(
                        out_before[k as int].version.model(),
                        x.version.model(),
                    );
                    if k as int <= j - 2 {
                        assert(pv_full_le(out_before[k as int], out_before[j - 1]));
                    }
                    lemma_version_full_le_trans(
                        x.version.model(),
                        out_before[k as int].version.model(),
                        out_before[j - 1].version.model(),
                    );
                } else {
                    assert(out@[i] == out_before[i - 1]);
                    assert(out@[j] == out_before[j - 1]);
                }
            }
        }
    }
    proof {
        assert(input@ =~= Seq::<PackageVersion>::empty());
        lemma_tm_empty(input@);
        assert(out@.to_multiset() =~= orig.to_multiset());
        assert forall|i: int, j: int| 0 <= i < j < out@.len() implies pv_le(
            #[trigger] out@[i],
            #[trigger] out@[j],
        ) by {
            lemma_version_full_le_refines(out@[i].version.model(), out@[j].version.model());
        }
    }
    out
}

/// Adjacent deduplication, keeping the first entry of each run of equal
/// versions.
pub open spec fn spec_dedup(s: Seq<PackageVersion>) -> Seq<PackageVersion>
    decreases s.len(),
{
    if s.len() == 0 {
        Seq::empty()
    } else if s.len() == 1 {
        s
    } else {
        let d = spec_dedup(s.drop_last());
        if pv_eq(s[s.len() - 1], s[s.len() - 2]) {
            d
        } else {
            d.push(s.last())
        }
    }
}

proof fn lemma_dedup_last(s: Seq<PackageVersion>)
    requires
        s.len() > 0,
    ensures
        spec_dedup(s).len() > 0,
        pv_eq(spec_dedup(s)[spec_dedup(s).len() - 1], s[s.len() - 1]),
    decreases s.len(),
{
    if s.len() == 1 {
    } else {
        lemma_dedup_last(s.drop_last());
    }
}

proof fn lemma_dedup_contains(s: Seq<PackageVersion>)
    ensures
        forall|i: int|
            0 <= i < spec_dedup(s).len() ==> s.contains(#[trigger] spec_dedup(s)[i]),
    decreases s.len(),
{
    if s.len() <= 1 {
        assert forall|i: int| 0 <= i < spec_dedup(s).len() implies s.contains(
            spec_dedup(s)[i],
        ) by {
            assert(s[i] == spec_dedup(s)[i]);
        }
    } else {
        let t = s.drop_last();
        lemma_dedup_contains(t);
        assert forall|i: int| 0 <= i < spec_dedup(s).len() implies s.contains(
            spec_dedup(s)[i],
        ) by {
            if i < spec_dedup(t).len() {
                assert(spec_dedup(s)[i] == spec_dedup(t)[i]);
                assert(t.contains(spec_dedup(t)[i]));
                let j = choose|j: int| 0 <= j < t.len() && t[j] == spec_dedup(t)[i];
                assert(s[j] == spec_dedup(s)[i]);
            } else {
                assert(spec_dedup(s)[i] == s.last());
                assert(s[s.len() - 1] == s.last());
            }
        }
    }
}

proof fn lemma_dedup_sorted_full(s: Seq<PackageVersion>)
    requires
        versions_sorted_full(s),
    ensures
        versions_sorted_full(spec_dedup(s)),
    decreases s.len(),
{
    if s.len() <= 1 {
        assert forall|i: int, j: int|
            0 <= i < j < spec_dedup(s).len() implies pv_full_le(
            spec_dedup(s)[i],
            spec_dedup(s)[j],
        ) by {
            assert(spec_dedup(s)[i] == s[i]);
        }
    } else {
        let t = s.drop_last();
        assert(versions_sorted_full(t));
        lemma_dedup_sorted_full(t);
        lemma_dedup_contains(t);
        if !pv_eq(s[s.len() - 1], s[s.len() - 2]) {
            let d = spec_dedup(t);
            assert forall|i: int, j: int|
                0 <= i < j < d.push(s.last()).len() implies pv_full_le(
                d.push(s.last())[i],
                d.push(s.last())[j],
            ) by {
                if j < d.len() {
                    assert(d.push(s.last())[i] == d[i]);
                    assert(d.push(s.last())[j] == d[j]);
                } else {
                    assert(d.push(s.last())[j] == s.last());
                    assert(d.push(s.last())[i] == d[i]);
                    assert(t.contains(d[i]));
                    let w = choose|w: int| 0 <= w < t.len() && t[w] == d[i];
                    assert(pv_full_le(s[w], s[s.len() - 1]));
                }
            }
        }
    }
}

proof fn lemma_full_sorted_distinct_strict(s: Seq<PackageVersion>, i: int, j: int)
    requires
        versions_sorted_full(s),
        forall|k: int| 0 <= k < s.len() - 1 ==> !pv_eq(#[trigger] s[k], s[k + 1]),
        0 <= i < j < s.len(),
    ensures
        version_full_lt(s[i].version.model(), s[j].version.model()),
    decreases j - i,
{
    if j == i + 1 {
        assert(pv_full_le(s[i], s[j]));
        assert(!pv_eq(s[i], s[j]));
    } else {
        lemma_full_sorted_distinct_strict(s, i, j - 1);
        lemma_full_sorted_distinct_strict(s, j - 1, j);
        crate::semver::lemma_version_full_lt_trans(
            s[i].version.model(),
            s[j - 1].version.model(),
            s[j].version.model(),
        );
    }
}

proof fn lemma_dedup_no_adjacent(s: Seq<PackageVersion>)
    ensures
        forall|i: int|
            0 <= i < spec_dedup(s).len() - 1 ==> !pv_eq(
                #[trigger] spec_dedup(s)[i],
                spec_dedup(s)[i + 1],
            ),
    decreases s.len(),
{
    if s.len() <= 1 {
    } else {
        let t = s.drop_last();
        lemma_dedup_no_adjacent(t);
        lemma_dedup_last(t);
        if !pv_eq(s[s.len() - 1], s[s.len() - 2]) {
            let d = spec_dedup(t);
            assert(t[t.len() - 1] == s[s.len() - 2]);
            assert forall|i: int|
                0 <= i < spec_dedup(s).len() - 1 implies !pv_eq(
                #[trigger] spec_dedup(s)[i],
                spec_dedup(s)[i + 1],
            ) by {
                if i < d.len() - 1 {
                    assert(spec_dedup(s)[i] == d[i]);
                    assert(spec_dedup(s)[i + 1] == d[i + 1]);
                } else {
                    assert(spec_dedup(s)[i] == d[d.len() - 1]);
                    assert(spec_dedup(s)[i + 1] == s.last());
                }
            }
        }
    }
}

proof fn lemma_dedup_counts(s: Seq<PackageVersion>)
    ensures
        forall|y: PackageVersion|
            #[trigger] spec_dedup(s).to_multiset().count(y) <= s.to_multiset().count(y),
    decreases s.len(),
{
    broadcast use vstd::seq_lib::group_to_multiset_ensures;

    if s.len() <= 1 {
    } else {
        let t = s.drop_last();
        lemma_dedup_counts(t);
        assert(t.push(s.last()) =~= s);
        assert(s.to_multiset() =~= t.to_multiset().insert(s.last()));
        if !pv_eq(s[s.len() - 1], s[s.len() - 2]) {
            let d = spec_dedup(t);
            assert(d.push(s.last()).to_multiset() =~= d.to_multiset().insert(s.last()));
        }
    }
}

/// Law: deduplication is idempotent — deduplicating twice gives the same
/// list as deduplicating once.
pub proof fn lemma_dedup_idempotent(s: Seq<PackageVersion>)
    ensures
        spec_dedup(spec_dedup(s)) == spec_dedup(s),
    decreases s.len(),
{
    if s.len() <= 1 {
    } else {
        let t = s.drop_last();
        let d = spec_dedup(t);
        lemma_dedup_idempotent(t);
        lemma_dedup_last(t);
        if pv_eq(s[s.len() - 1], s[s.len() - 2]) {
        } else {
            let e = d.push(s.last());
            assert(spec_dedup(s) == e);
            if t.len() == 0 {
            } else {
                assert(d.len() > 0);
                assert(e.len() >= 2);
                assert(e.drop_last() =~= d);
                assert(e[e.len() - 1] == s.last());
                assert(e[e.len() - 2] == d[d.len() - 1]);
                assert(t[t.len() - 1] == s[s.len() - 2]);
                assert(!pv_eq(e[e.len() - 1], e[e.len() - 2]));
                assert(spec_dedup(e) == spec_dedup(d).push(s.last()));
            }
        }
    }
}

/// Removes adjacent equal versions, keeping the first of each run.
pub fn dedup_versions(v: Vec<PackageVersion>) -> (r: Vec<PackageVersion>)
    ensures
        r@ == spec_dedup(v@),
{
    let ghost orig = v@;
    let mut rest = v;
    let total = rest.len();
    let mut r: Vec<PackageVersion> = Vec::new();
    let mut i: usize = 0;
    while rest.len() > 0
        invariant
            total == orig.len(),
            i + rest@.len() == orig.len(),
            rest@ == orig.subrange(i as int, orig.len() as int),
            r@ == spec_dedup(orig.subrange(0, i as int)),
            i > 0 ==> r@.len() > 0 && pv_eq(r@[r@.len() - 1], orig[i as int - 1]),
        decreases rest@.len(),
    {
        let x = rest.remove(0);
        proof {
            assert(x == orig[i as int]);
            assert(rest@ =~= orig.subrange(i as int + 1, orig.len() as int));
        }
        let keep = if r.len() == 0 {
            true
        } else {
            !semver_eq(&r[r.len() - 1].version, &x.version)
        };
        let ghost prefix = orig.subrange(0, i as int);
        let ghost prefix1 = orig.subrange(0, i as int + 1);
        proof {
            assert(prefix1.drop_last() =~= prefix);
            assert(prefix1.last() == x);
        }
        if keep {
            r.push(x);
        }
        proof {
            if i == 0 {
                assert(prefix1.len() == 1);
                assert(r@ =~= prefix1);
                assert(r@ == spec_dedup(prefix1));
            } else {
                assert(prefix1.len() >= 2);
                assert(prefix1[prefix1.len() - 1] == orig[i as int]);
                assert(prefix1[prefix1.len() - 2] == orig[i as int - 1]);
                if keep {
                    assert(!pv_eq(orig[i as int], orig[i as int - 1]));
                    assert(r@ == spec_dedup(prefix).push(x));
                    assert(r@ == spec_dedup(prefix1));
                } else {
                    assert(pv_eq(orig[i as int], orig[i as int - 1]));
                    assert(r@ == spec_dedup(prefix1));
                }
            }
        }
        i = i + 1;
    }
    proof {
        assert(orig.subrange(0, orig.len() as int) =~= orig);
    }
    r
}

/// What limiting keeps: the whole list, or its last `limit` entries.
pub open spec fn spec_limit(s: Seq<PackageVersion>, limit: Option<usize>) -> Seq<PackageVersion> {
    match limit {
        None => s,
        Some(l) => if s.len() > l {
            s.skip(s.len() - l as int)
        } else {
            s
        },
    }
}

/// Keeps only the trailing `limit` entries when the list is longer.
pub fn limit_versions(v: Vec<PackageVersion>, limit: Option<usize>) -> (r: Vec<PackageVersion>)
    ensures
        r@ == spec_limit(v@, limit),
{
    match limit {
        None => v,
        Some(l) => {
            let n = v.len();
            if n > l {
                let ghost orig = v@;
                let mut head = v;
                let tail = head.split_off(n - l);
                proof {
                    assert(tail@ =~= orig.skip(orig.len() - l as int));
                }
                tail
            } else {
                v
            }
        },
    }
}

/// Law: limiting a sorted-ascending list keeps exactly the `limit`
/// highest entries, still ascending, and leaves a short list unchanged.
pub proof fn lemma_limit_keeps_highest(s: Seq<PackageVersion>, l: usize)
    requires
        versions_sorted(s),
    ensures
        versions_sorted(spec_limit(s, Some(l))),
        s.len() <= l ==> spec_limit(s, Some(l)) == s,
        s.len() > l ==> spec_limit(s, Some(l)).len() == l as int,
        s.len() > l ==> forall|i: int, j: int|
            0 <= i < s.len() - l && 0 <= j < l ==> pv_le(
                #[trigger] s[i],
                #[trigger] spec_limit(s, Some(l))[j],
            ),
{
    if s.len() > l {
        let t = spec_limit(s, Some(l));
        assert forall|i: int, j: int|
            0 <= i < s.len() - l && 0 <= j < l implies pv_le(s[i], t[j]) by {
            assert(t[j] == s[s.len() - l + j]);
        }
        assert forall|i: int, j: int| 0 <= i < j < t.len() implies pv_le(t[i], t[j]) by {
            assert(t[i] == s[s.len() - l + i]);
            assert(t[j] == s[s.len() - l + j]);
        }
    }
}

/// The whole enumeration pipeline on collected versions: sort
/// ascending, drop adjacent duplicates, keep the `limit` highest.  The
/// result is exactly the limit step applied to the deduplication of a
/// sorted arrangement of the input: strictly ascending in the sorting
/// order (so free of duplicate versions), ascending in precedence, made
/// of input entries only, and at most `limit` long.
pub fn process_versions(v: Vec<PackageVersion>, limit: Option<usize>) -> (r: Vec<PackageVersion>)
    ensures
        exists|s: Seq<PackageVersion>|
            s.to_multiset() == v@.to_multiset() && versions_sorted_full(s) && r@ == spec_limit(
                #[trigger] spec_dedup(s),
                limit,
            ),
        versions_sorted(r@),
        forall|i: int, j: int|
            0 <= i < j < r@.len() ==> version_full_lt(
                (#[trigger] r@[i]).version.model(),
                (#[trigger] r@[j]).version.model(),
            ),
        forall|i: int| 0 <= i < r@.len() ==> v@.contains(#[trigger] r@[i]),
        forall|y: PackageVersion|
            #[trigger] r@.to_multiset().count(y) <= v@.to_multiset().count(y),
        limit is Some ==> r@.len() <= limit.unwrap(),
{
    let ghost orig = v@;
    let sorted = sort_versions(v);
    let ghost ss = sorted@;
    let deduped = dedup_versions(sorted);
    let ghost ds = deduped@;
    let r = limit_versions(deduped, limit);
    proof {
        broadcast use vstd::seq_lib::group_to_multiset_ensures;

        assert(ss.to_multiset() == orig.to_multiset() && versions_sorted_full(ss) && r@
            == spec_limit(spec_dedup(ss), limit));
        lemma_dedup_sorted_full(ss);
        lemma_dedup_no_adjacent(ss);
        lemma_dedup_contains(ss);
        lemma_dedup_counts(ss);
        let k = (if ds.len() > r@.len() {
            ds.len() - r@.len()
        } else {
            0
        });
        assert(ds =~= ds.take(k) + ds.skip(k));
        vstd::seq_lib::lemma_multiset_commutative(ds.take(k), ds.skip(k));
        assert(r@ == ds.skip(k));
        assert forall|y: PackageVersion| #[trigger] r@.to_multiset().count(y)
            <= orig.to_multiset().count(y) by {
            assert(ds.to_multiset().count(y) == ds.take(k).to_multiset().count(y)
                + ds.skip(k).to_multiset().count(y));
            assert(ds.to_multiset().count(y) <= ss.to_multiset().count(y));
            assert(ss.to_multiset() == orig.to_multiset());
        }
        assert forall|i: int| 0 <= i < r@.len() implies orig.contains(r@[i]) by {
            let k = (if ds.len() > r@.len() {
                ds.len() - r@.len()
            } else {
                0
            });
            assert(r@[i] == ds[k + i]);
            assert(ss.contains(ds[k + i]));
            assert(ss.to_multiset().count(ds[k + i]) > 0);
            assert(orig.to_multiset().count(ds[k + i]) > 0);
        }
        assert forall|i: int, j: int| 0 <= i < j < r@.len() implies version_full_lt(
            (#[trigger] r@[i]).version.model(),
            (#[trigger] r@[j]).version.model(),
        ) by {
            let k = (if ds.len() > r@.len() {
                ds.len() - r@.len()
            } else {
                0
            });
            assert(r@[i] == ds[k + i]);
            assert(r@[j] == ds[k + j]);
            lemma_full_sorted_distinct_strict(ds, k + i, k + j);
        }
        assert forall|i: int, j: int| 0 <= i < j < r@.len() implies pv_le(
            #[trigger] r@[i],
            #[trigger] r@[j],
        ) by {
            assert(version_full_lt(r@[i].version.model(), r@[j].version.model()));
            lemma_version_full_le_refines(r@[i].version.model(), r@[j].version.model());
        }
    }
    r
}

// ---------------------------------------------------------------------------
// Assembling and sorting the package list
// ---------------------------------------------------------------------------

/// Ordering of listing entries: lexicographic by path.
pub open spec fn file_le(a: File, b: File) -> bool {
    lex_le(a.path@, b.path@)
}

pub open spec fn files_sorted(s: Seq<File>) -> bool {
    forall|i: int, j: int| 0 <= i < j < s.len() ==> file_le(#[trigger] s[i], #[trigger] s[j])
}

/// Concatenation of the expansion listings, in order.
pub open spec fn concat_listings(l: Seq<Seq<File>>) -> Seq<File>
    decreases l.len(),
{
    if l.len() == 0 {
        Seq::empty()
    } else {
        concat_listings(l.drop_last()) + l.last()
    }
}

/// Sorts listing entries by path.
pub fn sort_files(v: Vec<File>) -> (r: Vec<File>)
    ensures
        files_sorted(r@),
        r@.to_multiset() == v@.to_multiset(),
{
    let ghost orig = v@;
    let mut input = v;
    let mut out: Vec<File> = Vec::new();
    proof {
        lemma_tm_empty(out@);
        assert(out@.to_multiset().add(input@.to_multiset()) =~= orig.to_multiset());
    }
    while input.len() > 0
        invariant
            files_sorted(out@),
            out@.to_multiset().add(input@.to_multiset()) == orig.to_multiset(),
        decreases input@.len(),
    {
        let ghost in_before = input@;
        let x = input.pop().unwrap();
        proof {
            broadcast use vstd::seq_lib::group_to_multiset_ensures;

            assert(in_before =~= input@.push(x));
            assert(in_before.to_multiset() =~= input@.to_multiset().insert(x));
        }
        let mut k: usize = 0;
        while k < out.len() && str_lex_le(out[k].path.as_str(), x.path.as_str())
            invariant
                k <= out@.len(),
                forall|j: int| 0 <= j < k ==> file_le(#[trigger] out@[j], x),
            decreases out@.len() - k,
        {
            k = k + 1;
        }
        let ghost out_before = out@;
        out.insert(k, x);
        proof {
            lemma_tm_insert(out_before, k as int, x);
            assert(out@.to_multiset().add(input@.to_multiset()) =~= orig.to_multiset());
            assert forall|i: int, j: int| 0 <= i < j < out@.len() implies file_le(
                out@[i],
                out@[j],
            ) by {
                if j < k {
                } else if i < k && j == k {
                } else if i < k && j > k {
                    assert(out@[j] == out_before[j - 1]);
                } else if i == k && j > k {
                    assert(out@[j] == out_before[j - 1]);
                    assert(k < out_before.len());
                    assert(!file_le(out_before[k as int], x));
                    lemma_lex_le_total(out_before[k as int].path@, x.path@);
                    if k as int <= j - 2 {
                        assert(file_le(out_before[k as int], out_before[j - 1]));
                    }
                    lemma_lex_le_transitive(
                        x.path@,
                        out_before[k as int].path@,
                        out_before[j - 1].path@,
                    );
                } else {
                    assert(out@[i] == out_before[i - 1]);
                    assert(out@[j] == out_before[j - 1]);
                }
            }
        }
    }
    proof {
        assert(input@ =~= Seq::<File>::empty());
        lemma_tm_empty(input@);
        assert(out@.to_multiset() =~= orig.to_multiset());
    }
    out
}

impl Registry {
    /// Assembles the package list from the root listing and the fetched
    /// expansions of its namespace directories: the known package entries
    /// together with every entry of every expansion, sorted by path.
    pub fn list_packages(&self, root: Vec<File>, expansions: Vec<Vec<File>>) -> (r: Vec<File>)
        ensures
            files_sorted(r@),
            r@.to_multiset() == (self.spec_direct(root@) + concat_listings(
                expansions@.map_values(|v: Vec<File>| v@),
            )).to_multiset(),
    {
        let ghost droot = self.spec_direct(root@);
        let ghost dexp = concat_listings(expansions@.map_values(|v: Vec<File>| v@));
        let mut pool: Vec<File> = Vec::new();
        let mut root = root;
        proof {
            lemma_tm_empty(pool@);
            assert(pool@.to_multiset().add(self.spec_direct(root@).to_multiset())
                =~= droot.to_multiset());
        }
        while root.len() > 0
            invariant
                pool@.to_multiset().add(self.spec_direct(root@).to_multiset())
                    == droot.to_multiset(),
            decreases root@.len(),
        {
            let ghost before = root@;
            let x = root.pop().unwrap();
            let c = self.classify(x.path.as_str());
            proof {
                assert(before.drop_last() =~= root@);
                assert(before.last() == x);
                let part = (if self.spec_classify(x.path@) == RootEntryClass::Known {
                    seq![x]
                } else {
                    Seq::<File>::empty()
                });
                assert(self.spec_direct(before) == self.spec_direct(root@) + part);
                vstd::seq_lib::lemma_multiset_commutative(self.spec_direct(root@), part);
                if self.spec_classify(x.path@) == RootEntryClass::Known {
                    lemma_tm_singleton(x);
                } else {
                    lemma_tm_empty(part);
                }
            }
            let ghost pool_before = pool@;
            if c == RootEntryClass::Known {
                pool.push(x);
                proof {
                    broadcast use vstd::seq_lib::group_to_multiset_ensures;

                    assert(pool@.to_multiset() =~= pool_before.to_multiset().insert(x));
                    assert(pool@.to_multiset().add(self.spec_direct(root@).to_multiset())
                        =~= droot.to_multiset());
                }
            } else {
                proof {
                    assert(pool@.to_multiset().add(self.spec_direct(root@).to_multiset())
                        =~= droot.to_multiset());
                }
            }
        }
        proof {
            assert(root@ =~= Seq::<File>::empty());
            assert(self.spec_direct(root@) == Seq::<File>::empty());
            lemma_tm_empty(self.spec_direct(root@));
            assert(pool@.to_multiset() =~= droot.to_multiset());
        }
        let mut expansions = expansions;
        proof {
            assert(pool@.to_multiset().add(concat_listings(
                expansions@.map_values(|v: Vec<File>| v@),
            ).to_multiset()) =~= droot.to_multiset().add(dexp.to_multiset()));
        }
        while expansions.len() > 0
            invariant
                pool@.to_multiset().add(concat_listings(
                    expansions@.map_values(|v: Vec<File>| v@),
                ).to_multiset()) == droot.to_multiset().add(dexp.to_multiset()),
            decreases expansions@.len(),
        {
            let ghost ebefore = expansions@.map_values(|v: Vec<File>| v@);
            let mut inner = expansions.pop().unwrap();
            proof {
                assert(ebefore.drop_last() =~= expansions@.map_values(|v: Vec<File>| v@));
                assert(ebefore.last() == inner@);
                assert(concat_listings(ebefore) == concat_listings(ebefore.drop_last())
                    + inner@);
                vstd::seq_lib::lemma_multiset_commutative(
                    concat_listings(ebefore.drop_last()),
                    inner@,
                );
            }
            while inner.len() > 0
                invariant
                    pool@.to_multiset().add(inner@.to_multiset()).add(concat_listings(
                        expansions@.map_values(|v: Vec<File>| v@),
                    ).to_multiset()) == droot.to_multiset().add(dexp.to_multiset()),
                decreases inner@.len(),
            {
                let ghost ibefore = inner@;
                let ghost pbefore = pool@;
                let y = inner.pop().unwrap();
                pool.push(y);
                proof {
                    broadcast use vstd::seq_lib::group_to_multiset_ensures;

                    assert(ibefore =~= inner@.push(y));
                    assert(ibefore.to_multiset() =~= inner@.to_multiset().insert(y));
                    assert(pool@.to_multiset() =~= pbefore.to_multiset().insert(y));
                }
            }
            proof {
                assert(inner@ =~= Seq::<File>::empty());
                lemma_tm_empty(inner@);
            }
        }
        proof {
            assert(expansions@.map_values(|v: Vec<File>| v@) =~= Seq::<Seq<File>>::empty());
            assert(concat_listings(expansions@.map_values(|v: Vec<File>| v@))
                == Seq::<File>::empty());
            lemma_tm_empty(Seq::<File>::empty());
            vstd::seq_lib::lemma_multiset_commutative(droot, dexp);
            assert(pool@.to_multiset() =~= (droot + dexp).to_multiset());
        }
        sort_files(pool)
    }
}

// ---------------------------------------------------------------------------
// Display helpers for listing output
// ---------------------------------------------------------------------------

/// A package entry's display name: its path without the trailing `/`.
pub fn display_package_name(path: &str) -> (r: String)
    ensures
        is_dir_path(path@) ==> r@ == path@.drop_last(),
        !is_dir_path(path@) ==> r@ == path@,
{
    let n = path.unicode_len();
    if n > 0 && path.get_char(n - 1) == '/' {
        let t = path.substring_char(0, n - 1);
        proof {
            assert(t@ =~= path@.drop_last());
        }
        t.to_owned()
    } else {
        path.to_owned()
    }
}

/// A branch entry's display name: the last path segment of the entry's
/// path with its trailing `/` removed, or nothing when the trimmed path
/// has no separator left.
pub fn branch_display_name(path: &str) -> (r: Option<String>)
    ensures
        match r {
            Some(b) => path@.len() > 0 && rfind_char(path@.drop_last(), '/') >= 0 && b@
                == path@.drop_last().subrange(
                rfind_char(path@.drop_last(), '/') + 1,
                path@.len() - 1,
            ),
            None => path@.len() == 0 || rfind_char(path@.drop_last(), '/') == -1,
        },
{
    let n = path.unicode_len();
    if n == 0 {
        return None;
    }
    let cs = chars_vec(path);
    match vec_rfind_slash(&cs, n - 1) {
        Some(k) => {
            let b = string_from_chars(&cs, k + 1, n - 1);
            proof {
                assert(cs@.subrange(0, n - 1 as int) =~= path@.drop_last());
                assert(b@ =~= path@.drop_last().subrange(
                    rfind_char(path@.drop_last(), '/') + 1,
                    path@.len() - 1,
                ));
            }
            Some(b)
        },
        None => {
            proof {
                assert(cs@.subrange(0, n - 1 as int) =~= path@.drop_last());
            }
            None
        },
    }
}

} // verus!
