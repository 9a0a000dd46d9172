//! The semantic-version model: grammar, parsing, canonical formatting,
//! the `major.minor` bucket, and precedence ordering.
//!
//! A version is `MAJOR.MINOR.PATCH`, optionally followed by `-` and a
//! dot-separated pre-release identifier list, optionally followed by `+`
//! and a dot-separated build identifier list.  Precedence compares
//! `(major, minor, patch)` and then the pre-release list, a pre-release
//! ordering before its release counterpart; build metadata never takes
//! part in precedence.

use vstd::prelude::*;

use crate::Error;
use crate::chars::{
    find_char, lemma_find_char, lex_lt, lemma_lex_lt_trichotomy, lemma_lex_lt_transitive,
    chars_vec, string_from_chars, str_eq, str_lex_le, subvec, vec_find,
};

verus! {

// ---------------------------------------------------------------------------
// Grammar: character classes and identifiers
// ---------------------------------------------------------------------------

pub open spec fn is_digit(c: char) -> bool {
    '0' <= c && c <= '9'
}

pub open spec fn digit_val(c: char) -> nat {
    if is_digit(c) {
        (c as int - '0' as int) as nat
    } else {
        0
    }
}

/// The characters allowed in pre-release and build identifiers.
pub open spec fn is_ident_char(c: char) -> bool {
    is_digit(c) || ('a' <= c && c <= 'z') || ('A' <= c && c <= 'Z') || c == '-'
}

pub open spec fn all_digits(s: Seq<char>) -> bool {
    forall|i: int| 0 <= i < s.len() ==> is_digit(#[trigger] s[i])
}

/// The numeric value of a digit sequence, most significant digit first.
pub open spec fn digits_val(s: Seq<char>) -> nat
    decreases s.len(),
{
    if s.len() == 0 {
        0
    } else {
        digits_val(s.subrange(0, s.len() - 1)) * 10 + digit_val(s[s.len() - 1])
    }
}

/// A numeric identifier: digits only, no leading zero.
pub open spec fn is_num_ident(s: Seq<char>) -> bool {
    s.len() > 0 && all_digits(s) && (s.len() == 1 || s[0] != '0')
}

/// An alphanumeric pre-release identifier: identifier characters with at
/// least one non-digit.
pub open spec fn is_alpha_ident(s: Seq<char>) -> bool {
    &&& s.len() > 0
    &&& (forall|i: int| 0 <= i < s.len() ==> is_ident_char(#[trigger] s[i]))
    &&& (exists|i: int| 0 <= i < s.len() && !is_digit(#[trigger] s[i]))
}

/// A build identifier: non-empty identifier characters.
pub open spec fn is_build_ident(s: Seq<char>) -> bool {
    s.len() > 0 && (forall|i: int| 0 <= i < s.len() ==> is_ident_char(#[trigger] s[i]))
}

// ---------------------------------------------------------------------------
// The version value and its mathematical model
// ---------------------------------------------------------------------------

/// One pre-release identifier.
#[derive(Debug)]
pub enum PreIdent {
    Num(u64),
    Alpha(String),
}

/// A parsed semantic version.
#[derive(Debug)]
pub struct SemVer {
    pub major: u64,
    pub minor: u64,
    pub patch: u64,
    pub pre: Vec<PreIdent>,
    pub build: Vec<String>,
}

/// The mathematical model of a pre-release identifier.
pub ghost enum PreIdentModel {
    Num(nat),
    Alpha(Seq<char>),
}

/// The mathematical model of a version: unbounded numbers and sequences.
pub ghost struct VersionModel {
    pub major: nat,
    pub minor: nat,
    pub patch: nat,
    pub pre: Seq<PreIdentModel>,
    pub build: Seq<Seq<char>>,
}

pub open spec fn pre_ident_model(p: PreIdent) -> PreIdentModel {
    match p {
        PreIdent::Num(n) => PreIdentModel::Num(n as nat),
        PreIdent::Alpha(s) => PreIdentModel::Alpha(s@),
    }
}

pub open spec fn pre_ident_wf(p: PreIdent) -> bool {
    match p {
        PreIdent::Num(_) => true,
        PreIdent::Alpha(s) => is_alpha_ident(s@),
    }
}

impl SemVer {
    pub open spec fn model(self) -> VersionModel {
        VersionModel {
            major: self.major as nat,
            minor: self.minor as nat,
            patch: self.patch as nat,
            pre: self.pre@.map_values(|p: PreIdent| pre_ident_model(p)),
            build: self.build@.map_values(|s: String| s@),
        }
    }

    /// Structural validity: every identifier conforms to the grammar.
    pub open spec fn wf(self) -> bool {
        &&& (forall|i: int| 0 <= i < self.pre@.len() ==> pre_ident_wf(#[trigger] self.pre@[i]))
        &&& (forall|i: int| 0 <= i < self.build@.len() ==> is_build_ident(#[trigger] self.build@[i]@))
    }

    /// The `"{major}.{minor}"` bucket, as a character sequence.
    pub open spec fn spec_bucket(self) -> Seq<char> {
        dec_rep(self.major as nat) + seq!['.'] + dec_rep(self.minor as nat)
    }

    pub open spec fn pre_seqs(self) -> Seq<Seq<char>> {
        self.pre@.map_values(|p: PreIdent| fmt_pre_ident(p))
    }

    pub open spec fn build_seqs(self) -> Seq<Seq<char>> {
        self.build@.map_values(|s: String| s@)
    }

    /// The canonical formatting of the whole version.
    pub open spec fn spec_format(self) -> Seq<char> {
        self.spec_bucket() + seq!['.'] + dec_rep(self.patch as nat) + (if self.pre@.len() > 0 {
            seq!['-'] + join_dot(self.pre_seqs())
        } else {
            Seq::<char>::empty()
        }) + (if self.build@.len() > 0 {
            seq!['+'] + join_dot(self.build_seqs())
        } else {
            Seq::<char>::empty()
        })
    }
}

// ---------------------------------------------------------------------------
// Canonical formatting
// ---------------------------------------------------------------------------

pub open spec fn digit_char(n: nat) -> char {
    if n == 0 {
        '0'
    } else if n == 1 {
        '1'
    } else if n == 2 {
        '2'
    } else if n == 3 {
        '3'
    } else if n == 4 {
        '4'
    } else if n == 5 {
        '5'
    } else if n == 6 {
        '6'
    } else if n == 7 {
        '7'
    } else if n == 8 {
        '8'
    } else {
        '9'
    }
}

/// The decimal representation of `n`, most significant digit first.
pub open spec fn dec_rep(n: nat) -> Seq<char>
    decreases n,
{
    if n < 10 {
        seq![digit_char(n)]
    } else {
        dec_rep(n / 10).push(digit_char(n % 10))
    }
}

pub open spec fn fmt_pre_ident(p: PreIdent) -> Seq<char> {
    match p {
        PreIdent::Num(n) => dec_rep(n as nat),
        PreIdent::Alpha(s) => s@,
    }
}

/// Dot-separated concatenation of identifier texts.
pub open spec fn join_dot(l: Seq<Seq<char>>) -> Seq<char>
    decreases l.len(),
{
    if l.len() == 0 {
        Seq::empty()
    } else if l.len() == 1 {
        l[0]
    } else {
        join_dot(l.drop_last()) + seq!['.'] + l.last()
    }
}

fn push_digit(s: &mut String, d: u64)
    requires
        d < 10,
    ensures
        final(s)@ == old(s)@ + seq![digit_char(d as nat)],
{
    let c: char = match d {
        0 => '0',
        1 => '1',
        2 => '2',
        3 => '3',
        4 => '4',
        5 => '5',
        6 => '6',
        7 => '7',
        8 => '8',
        _ => '9',
    };
    s.push(c);
    proof {
        assert(final(s)@ =~= old(s)@ + seq![digit_char(d as nat)]);
    }
}

/// Appends the decimal representation of `n` to `s`.
pub fn push_dec(s: &mut String, n: u64)
    ensures
        final(s)@ == old(s)@ + dec_rep(n as nat),
    decreases n,
{
    if n >= 10 {
        push_dec(s, n / 10);
    }
    push_digit(s, n % 10);
    proof {
        if n >= 10 {
            assert(final(s)@ =~= old(s)@ + dec_rep(n as nat));
        } else {
            assert(n % 10 == n as nat);
            assert(final(s)@ =~= old(s)@ + dec_rep(n as nat));
        }
    }
}

/// The decimal representation of `n` as a `String`.
pub fn u64_string(n: u64) -> (r: String)
    ensures
        r@ == dec_rep(n as nat),
{
    let mut s = String::new();
    push_dec(&mut s, n);
    proof {
        assert(s@ =~= dec_rep(n as nat));
    }
    s
}

impl SemVer {
    /// The `"{major}.{minor}"` path bucket of this version.
    pub fn bucket(&self) -> (r: String)
        ensures
            r@ == self.spec_bucket(),
    {
        let mut s = u64_string(self.major);
        s.push('.');
        push_dec(&mut s, self.minor);
        proof {
            assert(s@ =~= self.spec_bucket());
        }
        s
    }

    /// The pre-release list of this version as text, identifiers joined
    /// by dots; empty when the version is a release.
    pub fn pre_release_string(&self) -> (r: String)
        ensures
            r@ == join_dot(self.pre_seqs()),
    {
        let mut s = String::new();
        if self.pre.len() == 0 {
            return s;
        }
        let mut i: usize = 0;
        while i < self.pre.len()
            invariant
                i <= self.pre@.len(),
                i == 0 ==> s@ == Seq::<char>::empty(),
                i > 0 ==> s@ == join_dot(self.pre_seqs().subrange(0, i as int)),
            decreases self.pre@.len() - i,
        {
            if i > 0 {
                s.push('.');
            }
            match &self.pre[i] {
                PreIdent::Num(n) => {
                    push_dec(&mut s, *n);
                },
                PreIdent::Alpha(a) => {
                    s.append(a.as_str());
                },
            }
            proof {
                let js = self.pre_seqs();
                assert(js[i as int] == fmt_pre_ident(self.pre@[i as int]));
                if i == 0 {
                    assert(js.subrange(0, 1).len() == 1);
                    assert(js.subrange(0, 1)[0] == js[0]);
                    assert(s@ =~= join_dot(js.subrange(0, 1)));
                } else {
                    assert(js.subrange(0, i + 1).drop_last() =~= js.subrange(0, i as int));
                    assert(js.subrange(0, i + 1).last() == js[i as int]);
                    assert(s@ =~= join_dot(js.subrange(0, i + 1)));
                }
            }
            i = i + 1;
        }
        proof {
            assert(self.pre_seqs().subrange(0, self.pre@.len() as int) =~= self.pre_seqs());
        }
        s
    }

    /// The canonical string of this version.
    pub fn to_version_string(&self) -> (r: String)
        ensures
            r@ == self.spec_format(),
    {
        let mut s = u64_string(self.major);
        s.push('.');
        push_dec(&mut s, self.minor);
        s.push('.');
        push_dec(&mut s, self.patch);
        let ghost core: Seq<char> = self.spec_bucket() + seq!['.'] + dec_rep(self.patch as nat);
        proof {
            assert(s@ =~= core);
        }
        if self.pre.len() > 0 {
            s.push('-');
            let ghost base: Seq<char> = core + seq!['-'];
            proof {
                assert(s@ =~= base);
            }
            let mut i: usize = 0;
            while i < self.pre.len()
                invariant
                    i <= self.pre@.len(),
                    base == core + seq!['-'],
                    i == 0 ==> s@ == base,
                    i > 0 ==> s@ == base + join_dot(self.pre_seqs().subrange(0, i as int)),
                decreases self.pre@.len() - i,
            {
                if i > 0 {
                    s.push('.');
                }
                match &self.pre[i] {
                    PreIdent::Num(n) => {
                        push_dec(&mut s, *n);
                    },
                    PreIdent::Alpha(a) => {
                        s.append(a.as_str());
                    },
                }
                proof {
                    let js = self.pre_seqs();
                    assert(js[i as int] == fmt_pre_ident(self.pre@[i as int]));
                    if i == 0 {
                        assert(js.subrange(0, 1).len() == 1);
                        assert(js.subrange(0, 1)[0] == js[0]);
                        assert(s@ =~= base + join_dot(js.subrange(0, 1)));
                    } else {
                        assert(js.subrange(0, i + 1).drop_last() =~= js.subrange(0, i as int));
                        assert(js.subrange(0, i + 1).last() == js[i as int]);
                        assert(s@ =~= base + join_dot(js.subrange(0, i + 1)));
                    }
                }
                i = i + 1;
            }
            proof {
                assert(self.pre_seqs().subrange(0, self.pre@.len() as int) =~= self.pre_seqs());
            }
        }
        let ghost with_pre: Seq<char> = core + (if self.pre@.len() > 0 {
            seq!['-'] + join_dot(self.pre_seqs())
        } else {
            Seq::<char>::empty()
        });
        proof {
            assert(s@ =~= with_pre);
        }
        if self.build.len() > 0 {
            s.push('+');
            let ghost base2: Seq<char> = with_pre + seq!['+'];
            proof {
                assert(s@ =~= base2);
            }
            let mut i: usize = 0;
            while i < self.build.len()
                invariant
                    i <= self.build@.len(),
                    base2 == with_pre + seq!['+'],
                    i == 0 ==> s@ == base2,
                    i > 0 ==> s@ == base2 + join_dot(self.build_seqs().subrange(0, i as int)),
                decreases self.build@.len() - i,
            {
                if i > 0 {
                    s.push('.');
                }
                s.append(self.build[i].as_str());
                proof {
                    let js = self.build_seqs();
                    assert(js[i as int] == self.build@[i as int]@);
                    if i == 0 {
                        assert(js.subrange(0, 1).len() == 1);
                        assert(js.subrange(0, 1)[0] == js[0]);
                        assert(s@ =~= base2 + join_dot(js.subrange(0, 1)));
                    } else {
                        assert(js.subrange(0, i + 1).drop_last() =~= js.subrange(0, i as int));
                        assert(js.subrange(0, i + 1).last() == js[i as int]);
                        assert(s@ =~= base2 + join_dot(js.subrange(0, i + 1)));
                    }
                }
                i = i + 1;
            }
            proof {
                assert(self.build_seqs().subrange(0, self.build@.len() as int)
                    =~= self.build_seqs());
            }
        }
        proof {
            assert(s@ =~= self.spec_format());
        }
        s
    }
}

// ---------------------------------------------------------------------------
// Parsing: the grammar as a deterministic specification
// ---------------------------------------------------------------------------

/// The part of `s` before the first `c`, or all of `s` when `c` is absent.
pub open spec fn split_head(s: Seq<char>, c: char) -> Seq<char> {
    let i = find_char(s, c);
    if i < 0 {
        s
    } else {
        s.subrange(0, i)
    }
}

/// The part of `s` after the first `c`, when `c` occurs.
pub open spec fn split_tail(s: Seq<char>, c: char) -> Option<Seq<char>> {
    let i = find_char(s, c);
    if i < 0 {
        None
    } else {
        Some(s.subrange(i + 1, s.len() as int))
    }
}

pub open spec fn parse_num(s: Seq<char>) -> Option<nat> {
    if is_num_ident(s) {
        Some(digits_val(s))
    } else {
        None
    }
}

/// `"MAJOR.MINOR.PATCH"`: three numeric identifiers joined by dots.
pub open spec fn parse_core3(s: Seq<char>) -> Option<(nat, nat, nat)> {
    match split_tail(s, '.') {
        None => None,
        Some(r1) => match split_tail(r1, '.') {
            None => None,
            Some(pat) => {
                let maj = split_head(s, '.');
                let min = split_head(r1, '.');
                if is_num_ident(maj) && is_num_ident(min) && is_num_ident(pat) {
                    Some((digits_val(maj), digits_val(min), digits_val(pat)))
                } else {
                    None
                }
            },
        },
    }
}

pub open spec fn parse_pre_ident(s: Seq<char>) -> Option<PreIdentModel> {
    if is_num_ident(s) {
        Some(PreIdentModel::Num(digits_val(s)))
    } else if is_alpha_ident(s) {
        Some(PreIdentModel::Alpha(s))
    } else {
        None
    }
}

pub open spec fn parse_pre_list(s: Seq<char>) -> Option<Seq<PreIdentModel>>
    decreases s.len(),
    via parse_pre_list_decreases
{
    let i = find_char(s, '.');
    if i < 0 {
        match parse_pre_ident(s) {
            None => None,
            Some(p) => Some(seq![p]),
        }
    } else {
        match parse_pre_ident(s.subrange(0, i)) {
            None => None,
            Some(p) => match parse_pre_list(s.subrange(i + 1, s.len() as int)) {
                None => None,
                Some(l) => Some(seq![p] + l),
            },
        }
    }
}

#[via_fn]
proof fn parse_pre_list_decreases(s: Seq<char>) {
    lemma_find_char(s, '.');
}

pub open spec fn parse_build_list(s: Seq<char>) -> Option<Seq<Seq<char>>>
    decreases s.len(),
    via parse_build_list_decreases
{
    let i = find_char(s, '.');
    if i < 0 {
        if is_build_ident(s) {
            Some(seq![s])
        } else {
            None
        }
    } else {
        if is_build_ident(s.subrange(0, i)) {
            match parse_build_list(s.subrange(i + 1, s.len() as int)) {
                None => None,
                Some(l) => Some(seq![s.subrange(0, i)] + l),
            }
        } else {
            None
        }
    }
}

#[via_fn]
proof fn parse_build_list_decreases(s: Seq<char>) {
    lemma_find_char(s, '.');
}

/// What the whole grammar derives from `s`, if anything.
pub open spec fn spec_parse(s: Seq<char>) -> Option<VersionModel> {
    let before_build = split_head(s, '+');
    let core = split_head(before_build, '-');
    match parse_core3(core) {
        None => None,
        Some(c3) => {
            let pre = match split_tail(before_build, '-') {
                None => Some(Seq::<PreIdentModel>::empty()),
                Some(p) => parse_pre_list(p),
            };
            let build = match split_tail(s, '+') {
                None => Some(Seq::<Seq<char>>::empty()),
                Some(b) => parse_build_list(b),
            };
            match pre {
                None => None,
                Some(pre) => match build {
                    None => None,
                    Some(build) => Some(
                        VersionModel { major: c3.0, minor: c3.1, patch: c3.2, pre, build },
                    ),
                },
            }
        },
    }
}

pub open spec fn ident_fits(p: PreIdentModel) -> bool {
    match p {
        PreIdentModel::Num(n) => n <= u64::MAX,
        PreIdentModel::Alpha(_) => true,
    }
}

pub open spec fn pre_fits(l: Seq<PreIdentModel>) -> bool {
    forall|i: int| 0 <= i < l.len() ==> ident_fits(#[trigger] l[i])
}

/// Whether every number of the model fits the machine representation.
pub open spec fn fits_u64(m: VersionModel) -> bool {
    m.major <= u64::MAX && m.minor <= u64::MAX && m.patch <= u64::MAX && pre_fits(m.pre)
}

// ---------------------------------------------------------------------------
// Parsing: executable
// ---------------------------------------------------------------------------

proof fn lemma_digits_val_mono(s: Seq<char>, i: int, j: int)
    requires
        0 <= i <= j <= s.len(),
    ensures
        digits_val(s.subrange(0, i)) <= digits_val(s.subrange(0, j)),
    decreases j - i,
{
    if i < j {
        lemma_digits_val_mono(s, i, j - 1);
        let p = s.subrange(0, j);
        assert(p.subrange(0, p.len() - 1) =~= s.subrange(0, j - 1));
        assert(digits_val(p) == digits_val(s.subrange(0, j - 1)) * 10 + digit_val(s[j - 1]));
    }
}

fn digit_of(c: char) -> (d: u64)
    requires
        is_digit(c),
    ensures
        d as nat == digit_val(c),
{
    match c {
        '0' => 0,
        '1' => 1,
        '2' => 2,
        '3' => 3,
        '4' => 4,
        '5' => 5,
        '6' => 6,
        '7' => 7,
        '8' => 8,
        '9' => 9,
        _ => {
            proof {
                assert(false);
            }
            0
        },
    }
}

fn parse_num_exec(v: &Vec<char>) -> (r: Option<u64>)
    ensures
        match r {
            Some(n) => is_num_ident(v@) && n as nat == digits_val(v@),
            None => !is_num_ident(v@) || digits_val(v@) > u64::MAX,
        },
{
    let n = v.len();
    if n == 0 {
        return None;
    }
    if n > 1 && v[0] == '0' {
        return None;
    }
    let mut acc: u64 = 0;
    let mut i: usize = 0;
    while i < n
        invariant
            n == v@.len(),
            i <= n,
            n > 0,
            n > 1 ==> v@[0] != '0',
            forall|j: int| 0 <= j < i ==> is_digit(#[trigger] v@[j]),
            acc as nat == digits_val(v@.subrange(0, i as int)),
        decreases n - i,
    {
        let c: char = v[i];
        if !(c >= '0' && c <= '9') {
            return None;
        }
        let d: u64 = digit_of(c);
        proof {
            assert(is_digit(v@[i as int]));
            assert(digit_val(v@[i as int]) == d as nat);
            assert(v@.subrange(0, i + 1).subrange(0, i as int) =~= v@.subrange(0, i as int));
            assert(digits_val(v@.subrange(0, i + 1)) == digits_val(v@.subrange(0, i as int)) * 10
                + digit_val(v@[i as int]));
        }
        if acc > u64::MAX / 10 || (acc == u64::MAX / 10 && d > u64::MAX % 10) {
            proof {
                assert(digits_val(v@.subrange(0, i + 1)) > u64::MAX);
                lemma_digits_val_mono(v@, i + 1, n as int);
                assert(v@.subrange(0, n as int) =~= v@);
            }
            return None;
        }
        acc = acc * 10 + d;
        i = i + 1;
    }
    proof {
        assert(v@.subrange(0, n as int) =~= v@);
        assert(is_num_ident(v@));
    }
    Some(acc)
}

fn parse_pre_ident_exec(v: &Vec<char>) -> (r: Option<PreIdent>)
    ensures
        match r {
            Some(p) => pre_ident_wf(p) && parse_pre_ident(v@) == Some(pre_ident_model(p)),
            None => parse_pre_ident(v@) is None || (is_num_ident(v@) && digits_val(v@)
                > u64::MAX),
        },
{
    let n = v.len();
    if n == 0 {
        return None;
    }
    let mut has_nondigit = false;
    let mut i: usize = 0;
    while i < n
        invariant
            n == v@.len(),
            i <= n,
            forall|j: int| 0 <= j < i ==> is_ident_char(#[trigger] v@[j]),
            has_nondigit == exists|j: int| 0 <= j < i && !is_digit(#[trigger] v@[j]),
        decreases n - i,
    {
        let c: char = v[i];
        let digit = c >= '0' && c <= '9';
        let ident_ok = digit || (c >= 'a' && c <= 'z') || (c >= 'A' && c <= 'Z') || c == '-';
        if !ident_ok {
            proof {
                assert(!is_ident_char(v@[i as int]));
                assert(!is_digit(v@[i as int]));
                assert(!is_num_ident(v@));
                assert(!is_alpha_ident(v@));
            }
            return None;
        }
        if !digit {
            has_nondigit = true;
            proof {
                assert(!is_digit(v@[i as int]));
            }
        }
        proof {
            assert(is_ident_char(v@[i as int]));
        }
        i = i + 1;
    }
    if has_nondigit {
        let s = string_from_chars(v, 0, n);
        proof {
            assert(v@.subrange(0, n as int) =~= v@);
            assert(is_alpha_ident(v@));
            assert(!is_num_ident(v@));
        }
        Some(PreIdent::Alpha(s))
    } else {
        proof {
            assert(forall|j: int| 0 <= j < n ==> is_digit(#[trigger] v@[j]));
        }
        match parse_num_exec(v) {
            Some(x) => Some(PreIdent::Num(x)),
            None => {
                proof {
                    if !is_num_ident(v@) {
                        assert(!is_alpha_ident(v@));
                    }
                }
                None
            },
        }
    }
}

fn parse_build_ident_exec(v: &Vec<char>) -> (r: Option<String>)
    ensures
        match r {
            Some(s) => is_build_ident(v@) && s@ == v@,
            None => !is_build_ident(v@),
        },
{
    let n = v.len();
    if n == 0 {
        return None;
    }
    let mut i: usize = 0;
    while i < n
        invariant
            n == v@.len(),
            i <= n,
            forall|j: int| 0 <= j < i ==> is_ident_char(#[trigger] v@[j]),
        decreases n - i,
    {
        let c: char = v[i];
        let ident_ok = (c >= '0' && c <= '9') || (c >= 'a' && c <= 'z') || (c >= 'A' && c <= 'Z')
            || c == '-';
        if !ident_ok {
            proof {
                assert(!is_ident_char(v@[i as int]));
            }
            return None;
        }
        proof {
            assert(is_ident_char(v@[i as int]));
        }
        i = i + 1;
    }
    let s = string_from_chars(v, 0, n);
    proof {
        assert(v@.subrange(0, n as int) =~= v@);
    }
    Some(s)
}

fn parse_pre_list_exec(v: &Vec<char>) -> (r: Option<Vec<PreIdent>>)
    ensures
        match r {
            Some(l) => (forall|i: int| 0 <= i < l@.len() ==> pre_ident_wf(#[trigger] l@[i]))
                && parse_pre_list(v@) == Some(
                l@.map_values(|p: PreIdent| pre_ident_model(p)),
            ),
            None => match parse_pre_list(v@) {
                None => true,
                Some(m) => !pre_fits(m),
            },
        },
    decreases v@.len(),
{
    match vec_find(v, '.') {
        None => {
            match parse_pre_ident_exec(v) {
                Some(p) => {
                    let mut out: Vec<PreIdent> = Vec::new();
                    let ghost pm = pre_ident_model(p);
                    out.push(p);
                    proof {
                        assert(out@.map_values(|q: PreIdent| pre_ident_model(q)) =~= seq![pm]);
                    }
                    Some(out)
                },
                None => {
                    proof {
                        if is_num_ident(v@) && digits_val(v@) > u64::MAX {
                            let m = parse_pre_list(v@).unwrap();
                            assert(m[0] == PreIdentModel::Num(digits_val(v@)));
                            assert(!ident_fits(m[0]));
                        }
                    }
                    None
                },
            }
        },
        Some(i) => {
            let vn = v.len();
            let head = subvec(v, 0, i);
            let rest = subvec(v, i + 1, vn);
            match parse_pre_ident_exec(&head) {
                None => {
                    proof {
                        if is_num_ident(head@) && digits_val(head@) > u64::MAX {
                            match parse_pre_list(v@) {
                                None => {},
                                Some(m) => {
                                    assert(m[0] == PreIdentModel::Num(digits_val(head@)));
                                    assert(!ident_fits(m[0]));
                                },
                            }
                        }
                    }
                    None
                },
                Some(p) => {
                    match parse_pre_list_exec(&rest) {
                        None => {
                            proof {
                                match parse_pre_list(rest@) {
                                    None => {},
                                    Some(m) => {
                                        assert(!pre_fits(m));
                                        match parse_pre_list(v@) {
                                            None => {},
                                            Some(w) => {
                                                let bad = choose|k: int|
                                                    0 <= k < m.len() && !ident_fits(m[k]);
                                                assert(w[bad + 1] == m[bad]);
                                                assert(!ident_fits(w[bad + 1]));
                                            },
                                        }
                                    },
                                }
                            }
                            None
                        },
                        Some(mut l) => {
                            let ghost pm = pre_ident_model(p);
                            let ghost lm = l@.map_values(|q: PreIdent| pre_ident_model(q));
                            l.insert(0, p);
                            proof {
                                assert(l@.map_values(|q: PreIdent| pre_ident_model(q)) =~= seq![pm]
                                    + lm);
                            }
                            Some(l)
                        },
                    }
                },
            }
        },
    }
}

fn parse_build_list_exec(v: &Vec<char>) -> (r: Option<Vec<String>>)
    ensures
        match r {
            Some(l) => (forall|i: int| 0 <= i < l@.len() ==> is_build_ident(#[trigger] l@[i]@))
                && parse_build_list(v@) == Some(l@.map_values(|s: String| s@)),
            None => parse_build_list(v@) is None,
        },
    decreases v@.len(),
{
    match vec_find(v, '.') {
        None => {
            match parse_build_ident_exec(v) {
                Some(s) => {
                    let ghost sm = s@;
                    let mut out: Vec<String> = Vec::new();
                    out.push(s);
                    proof {
                        assert(out@.map_values(|t: String| t@) =~= seq![sm]);
                    }
                    Some(out)
                },
                None => None,
            }
        },
        Some(i) => {
            let vn = v.len();
            let head = subvec(v, 0, i);
            let rest = subvec(v, i + 1, vn);
            match parse_build_ident_exec(&head) {
                None => None,
                Some(s) => {
                    match parse_build_list_exec(&rest) {
                        None => None,
                        Some(mut l) => {
                            let ghost sm = s@;
                            let ghost lm = l@.map_values(|t: String| t@);
                            l.insert(0, s);
                            proof {
                                assert(l@.map_values(|t: String| t@) =~= seq![sm] + lm);
                            }
                            Some(l)
                        },
                    }
                },
            }
        },
    }
}

/// Parses a semantic version string.  Returns `MalformedVersion` exactly
/// when the string does not conform to the grammar or a numeric component
/// does not fit the machine representation.
#[verifier::rlimit(100)]
pub fn parse_version(s: &str) -> (r: Result<SemVer, Error>)
    ensures
        match r {
            Ok(v) => v.wf() && spec_parse(s@) == Some(v.model()),
            Err(e) => e == Error::MalformedVersion && (match spec_parse(s@) {
                None => true,
                Some(m) => !fits_u64(m),
            }),
        },
{
    let cs = chars_vec(s);
    let n = cs.len();
    let (before_build, build_part): (Vec<char>, Option<Vec<char>>) = match vec_find(&cs, '+') {
        None => (subvec(&cs, 0, n), None),
        Some(i) => (subvec(&cs, 0, i), Some(subvec(&cs, i + 1, n))),
    };
    proof {
        assert(cs@.subrange(0, n as int) =~= cs@);
        assert(before_build@ == split_head(s@, '+'));
    }
    let bn = before_build.len();
    let (core, pre_part): (Vec<char>, Option<Vec<char>>) = match vec_find(&before_build, '-') {
        None => (subvec(&before_build, 0, bn), None),
        Some(i) => (subvec(&before_build, 0, i), Some(subvec(&before_build, i + 1, bn))),
    };
    proof {
        assert(before_build@.subrange(0, bn as int) =~= before_build@);
        assert(core@ == split_head(split_head(s@, '+'), '-'));
    }
    // core: MAJOR.MINOR.PATCH
    let cn = core.len();
    let i1 = match vec_find(&core, '.') {
        None => {
            return Err(Error::MalformedVersion);
        },
        Some(i) => i,
    };
    let maj = subvec(&core, 0, i1);
    let rest1 = subvec(&core, i1 + 1, cn);
    let rn = rest1.len();
    let i2 = match vec_find(&rest1, '.') {
        None => {
            return Err(Error::MalformedVersion);
        },
        Some(i) => i,
    };
    let minor_part = subvec(&rest1, 0, i2);
    let pat = subvec(&rest1, i2 + 1, rn);
    let major = match parse_num_exec(&maj) {
        Some(x) => x,
        None => {
            return Err(Error::MalformedVersion);
        },
    };
    let minor = match parse_num_exec(&minor_part) {
        Some(x) => x,
        None => {
            return Err(Error::MalformedVersion);
        },
    };
    let patch = match parse_num_exec(&pat) {
        Some(x) => x,
        None => {
            return Err(Error::MalformedVersion);
        },
    };
    let pre: Vec<PreIdent> = match pre_part {
        None => Vec::new(),
        Some(p) => match parse_pre_list_exec(&p) {
            Some(l) => l,
            None => {
                return Err(Error::MalformedVersion);
            },
        },
    };
    let build: Vec<String> = match build_part {
        None => Vec::new(),
        Some(b) => match parse_build_list_exec(&b) {
            Some(l) => l,
            None => {
                return Err(Error::MalformedVersion);
            },
        },
    };
    let v = SemVer { major, minor, patch, pre, build };
    proof {
        assert(v.model().pre =~= match split_tail(split_head(s@, '+'), '-') {
            None => Seq::<PreIdentModel>::empty(),
            Some(p) => parse_pre_list(p).unwrap(),
        });
        assert(v.model().build =~= match split_tail(s@, '+') {
            None => Seq::<Seq<char>>::empty(),
            Some(b) => parse_build_list(b).unwrap(),
        });
        assert(spec_parse(s@) == Some(v.model()));
    }
    Ok(v)
}

// ---------------------------------------------------------------------------
// Precedence ordering
// ---------------------------------------------------------------------------

/// Precedence of single pre-release identifiers: numeric before
/// alphanumeric, numeric by value, alphanumeric lexically.
pub open spec fn ident_lt(a: PreIdentModel, b: PreIdentModel) -> bool {
    match a {
        PreIdentModel::Num(x) => match b {
            PreIdentModel::Num(y) => x < y,
            PreIdentModel::Alpha(_) => true,
        },
        PreIdentModel::Alpha(x) => match b {
            PreIdentModel::Num(_) => false,
            PreIdentModel::Alpha(y) => lex_lt(x, y),
        },
    }
}

/// Precedence of pre-release identifier lists: first difference decides,
/// a proper prefix ordering before its extensions.
pub open spec fn pre_list_lt(a: Seq<PreIdentModel>, b: Seq<PreIdentModel>) -> bool
    decreases a.len(),
{
    if b.len() == 0 {
        false
    } else if a.len() == 0 {
        true
    } else if a[0] == b[0] {
        pre_list_lt(a.drop_first(), b.drop_first())
    } else {
        ident_lt(a[0], b[0])
    }
}

/// Semantic-version precedence: `(major, minor, patch)` first, then the
/// pre-release list, a pre-release ordering before its release
/// counterpart.  Build metadata takes no part.
pub open spec fn version_lt(a: VersionModel, b: VersionModel) -> bool {
    if a.major != b.major {
        a.major < b.major
    } else if a.minor != b.minor {
        a.minor < b.minor
    } else if a.patch != b.patch {
        a.patch < b.patch
    } else if a.pre.len() == 0 {
        false
    } else if b.pre.len() == 0 {
        true
    } else {
        pre_list_lt(a.pre, b.pre)
    }
}

/// Precedence equality: equal numbers and equal pre-release lists.  Build
/// metadata is ignored.
pub open spec fn prec_eq(a: VersionModel, b: VersionModel) -> bool {
    a.major == b.major && a.minor == b.minor && a.patch == b.patch && a.pre == b.pre
}

pub open spec fn version_le(a: VersionModel, b: VersionModel) -> bool {
    version_lt(a, b) || prec_eq(a, b)
}

pub proof fn lemma_ident_lt_props(a: PreIdentModel, b: PreIdentModel)
    ensures
        ident_lt(a, b) || ident_lt(b, a) || a == b,
        ident_lt(a, b) ==> !ident_lt(b, a),
        ident_lt(a, b) ==> a != b,
{
    match a {
        PreIdentModel::Num(x) => {},
        PreIdentModel::Alpha(x) => match b {
            PreIdentModel::Num(_) => {},
            PreIdentModel::Alpha(y) => {
                lemma_lex_lt_trichotomy(x, y);
            },
        },
    }
}

pub proof fn lemma_ident_lt_trans(a: PreIdentModel, b: PreIdentModel, c: PreIdentModel)
    requires
        ident_lt(a, b),
        ident_lt(b, c),
    ensures
        ident_lt(a, c),
{
    match a {
        PreIdentModel::Num(x) => {},
        PreIdentModel::Alpha(x) => match b {
            PreIdentModel::Num(_) => {},
            PreIdentModel::Alpha(y) => match c {
                PreIdentModel::Num(_) => {},
                PreIdentModel::Alpha(z) => {
                    lemma_lex_lt_transitive(x, y, z);
                },
            },
        },
    }
}

pub proof fn lemma_pre_list_lt_props(a: Seq<PreIdentModel>, b: Seq<PreIdentModel>)
    ensures
        pre_list_lt(a, b) || pre_list_lt(b, a) || a == b,
        pre_list_lt(a, b) ==> !pre_list_lt(b, a),
        pre_list_lt(a, b) ==> a != b,
    decreases a.len(),
{
    if b.len() == 0 {
        if a.len() == 0 {
            assert(a =~= b);
        }
    } else if a.len() == 0 {
    } else if a[0] == b[0] {
        lemma_pre_list_lt_props(a.drop_first(), b.drop_first());
        if a.drop_first() == b.drop_first() {
            assert forall|j: int| 0 <= j < a.len() implies a[j] == b[j] by {
                if j > 0 {
                    assert(a.drop_first()[j - 1] == a[j]);
                    assert(b.drop_first()[j - 1] == b[j]);
                }
            }
            assert(a =~= b);
        }
        if a == b {
            assert(a.drop_first() =~= b.drop_first());
        }
    } else {
        lemma_ident_lt_props(a[0], b[0]);
    }
}

pub proof fn lemma_pre_list_lt_trans(
    a: Seq<PreIdentModel>,
    b: Seq<PreIdentModel>,
    c: Seq<PreIdentModel>,
)
    requires
        pre_list_lt(a, b),
        pre_list_lt(b, c),
    ensures
        pre_list_lt(a, c),
    decreases a.len(),
{
    if a.len() == 0 {
    } else {
        if a[0] == b[0] && b[0] == c[0] {
            lemma_pre_list_lt_trans(a.drop_first(), b.drop_first(), c.drop_first());
        } else if a[0] == b[0] {
            assert(ident_lt(b[0], c[0]));
        } else if b[0] == c[0] {
            assert(ident_lt(a[0], b[0]));
        } else {
            lemma_ident_lt_trans(a[0], b[0], c[0]);
            if a[0] == c[0] {
                lemma_ident_lt_props(a[0], b[0]);
                assert(false);
            }
        }
    }
}

/// Law: version precedence is transitive.
pub proof fn lemma_version_lt_transitive(a: VersionModel, b: VersionModel, c: VersionModel)
    requires
        version_lt(a, b),
        version_lt(b, c),
    ensures
        version_lt(a, c),
{
    if a.major == b.major && b.major == c.major && a.minor == b.minor && b.minor == c.minor
        && a.patch == b.patch && b.patch == c.patch {
        if a.pre.len() > 0 && b.pre.len() > 0 && c.pre.len() > 0 {
            lemma_pre_list_lt_trans(a.pre, b.pre, c.pre);
        }
    }
}

/// Law: of two versions, either one precedes the other or they are equal
/// in precedence, and never both.
pub proof fn lemma_version_lt_trichotomy(a: VersionModel, b: VersionModel)
    ensures
        version_lt(a, b) || version_lt(b, a) || prec_eq(a, b),
        version_lt(a, b) ==> !version_lt(b, a),
        version_lt(a, b) ==> !prec_eq(a, b),
{
    if a.major == b.major && a.minor == b.minor && a.patch == b.patch {
        if a.pre.len() == 0 && b.pre.len() == 0 {
            assert(a.pre =~= b.pre);
        } else {
            lemma_pre_list_lt_props(a.pre, b.pre);
        }
    }
}

/// Law: a pre-release version precedes its release counterpart of equal
/// `major.minor.patch`.
pub proof fn lemma_prerelease_precedes_release(a: VersionModel, b: VersionModel)
    requires
        a.major == b.major,
        a.minor == b.minor,
        a.patch == b.patch,
        a.pre.len() > 0,
        b.pre.len() == 0,
    ensures
        version_lt(a, b),
{
}

/// Law: `version_le` is total and transitive, so sorting by it is
/// meaningful.
pub proof fn lemma_version_le_total(a: VersionModel, b: VersionModel)
    ensures
        version_le(a, b) || version_le(b, a),
{
    lemma_version_lt_trichotomy(a, b);
}

pub proof fn lemma_version_le_trans(a: VersionModel, b: VersionModel, c: VersionModel)
    requires
        version_le(a, b),
        version_le(b, c),
    ensures
        version_le(a, c),
{
    if version_lt(a, b) && version_lt(b, c) {
        lemma_version_lt_transitive(a, b, c);
    }
}

/// Lexicographic order on build identifier lists: first difference
/// decides, a proper prefix ordering before its extensions.
pub open spec fn build_lt(a: Seq<Seq<char>>, b: Seq<Seq<char>>) -> bool
    decreases a.len(),
{
    if b.len() == 0 {
        false
    } else if a.len() == 0 {
        true
    } else if a[0] == b[0] {
        build_lt(a.drop_first(), b.drop_first())
    } else {
        lex_lt(a[0], b[0])
    }
}

proof fn lemma_build_lt_props(a: Seq<Seq<char>>, b: Seq<Seq<char>>)
    ensures
        build_lt(a, b) || build_lt(b, a) || a == b,
        build_lt(a, b) ==> !build_lt(b, a),
        build_lt(a, b) ==> a != b,
    decreases a.len(),
{
    if b.len() == 0 {
        if a.len() == 0 {
            assert(a =~= b);
        }
    } else if a.len() == 0 {
    } else if a[0] == b[0] {
        lemma_build_lt_props(a.drop_first(), b.drop_first());
        if a.drop_first() == b.drop_first() {
            assert forall|j: int| 0 <= j < a.len() implies a[j] == b[j] by {
                if j > 0 {
                    assert(a.drop_first()[j - 1] == a[j]);
                    assert(b.drop_first()[j - 1] == b[j]);
                }
            }
            assert(a =~= b);
        }
        if a == b {
            assert(a.drop_first() =~= b.drop_first());
        }
    } else {
        lemma_lex_lt_trichotomy(a[0], b[0]);
    }
}

proof fn lemma_build_lt_trans(a: Seq<Seq<char>>, b: Seq<Seq<char>>, c: Seq<Seq<char>>)
    requires
        build_lt(a, b),
        build_lt(b, c),
    ensures
        build_lt(a, c),
    decreases a.len(),
{
    if a.len() == 0 {
    } else {
        if a[0] == b[0] && b[0] == c[0] {
            lemma_build_lt_trans(a.drop_first(), b.drop_first(), c.drop_first());
        } else if a[0] == b[0] {
        } else if b[0] == c[0] {
        } else {
            lemma_lex_lt_transitive(a[0], b[0], c[0]);
            if a[0] == c[0] {
                lemma_lex_lt_trichotomy(a[0], b[0]);
                assert(false);
            }
        }
    }
}

proof fn lemma_build_lt_common_prefix(a: Seq<Seq<char>>, b: Seq<Seq<char>>, i: int)
    requires
        0 <= i <= a.len(),
        0 <= i <= b.len(),
        forall|j: int| 0 <= j < i ==> a[j] == b[j],
    ensures
        build_lt(a, b) == build_lt(a.skip(i), b.skip(i)),
    decreases i,
{
    if i == 0 {
        assert(a.skip(0) =~= a);
        assert(b.skip(0) =~= b);
    } else {
        let a1 = a.drop_first();
        let b1 = b.drop_first();
        assert(forall|j: int| 0 <= j < i - 1 ==> a1[j] == b1[j]);
        lemma_build_lt_common_prefix(a1, b1, i - 1);
        assert(a1.skip(i - 1) =~= a.skip(i));
        assert(b1.skip(i - 1) =~= b.skip(i));
    }
}

/// The total order used for sorting: precedence first, and among
/// precedence-equal versions the build identifier lists, so that equal
/// versions always end up adjacent after a sort.
pub open spec fn version_full_lt(a: VersionModel, b: VersionModel) -> bool {
    version_lt(a, b) || (prec_eq(a, b) && build_lt(a.build, b.build))
}

pub open spec fn version_full_le(a: VersionModel, b: VersionModel) -> bool {
    version_full_lt(a, b) || a == b
}

/// Law: the sorting order is total, antisymmetric down to equality, and
/// refines precedence.
pub proof fn lemma_version_full_lt_props(a: VersionModel, b: VersionModel)
    ensures
        version_full_le(a, b) || version_full_le(b, a),
        version_full_lt(a, b) ==> !version_full_lt(b, a),
        version_full_lt(a, b) ==> a != b,
{
    lemma_version_lt_trichotomy(a, b);
    lemma_version_lt_trichotomy(b, a);
    lemma_build_lt_props(a.build, b.build);
    if !version_lt(a, b) && !version_lt(b, a) {
        assert(prec_eq(a, b));
        if a.build == b.build {
            assert(a == b);
        }
    }
    if version_full_lt(a, b) && a == b {
        assert(prec_eq(a, b));
        assert(!version_lt(a, b));
        assert(build_lt(a.build, b.build));
        assert(a.build != b.build);
        assert(false);
    }
}

pub proof fn lemma_version_full_lt_trans(a: VersionModel, b: VersionModel, c: VersionModel)
    requires
        version_full_lt(a, b),
        version_full_lt(b, c),
    ensures
        version_full_lt(a, c),
{
    if version_lt(a, b) && version_lt(b, c) {
        lemma_version_lt_transitive(a, b, c);
    } else if version_lt(a, b) && prec_eq(b, c) {
        assert(version_lt(a, c));
    } else if prec_eq(a, b) && version_lt(b, c) {
        assert(version_lt(a, c));
    } else {
        assert(prec_eq(a, c));
        lemma_build_lt_trans(a.build, b.build, c.build);
    }
}

pub proof fn lemma_version_full_le_trans(a: VersionModel, b: VersionModel, c: VersionModel)
    requires
        version_full_le(a, b),
        version_full_le(b, c),
    ensures
        version_full_le(a, c),
{
    if version_full_lt(a, b) && version_full_lt(b, c) {
        lemma_version_full_lt_trans(a, b, c);
    }
}

/// Law: the sorting order refines precedence.
pub proof fn lemma_version_full_le_refines(a: VersionModel, b: VersionModel)
    ensures
        version_full_le(a, b) ==> version_le(a, b),
{
    if a == b {
        assert(prec_eq(a, b));
    }
}

proof fn lemma_pre_list_lt_common_prefix(a: Seq<PreIdentModel>, b: Seq<PreIdentModel>, i: int)
    requires
        0 <= i <= a.len(),
        0 <= i <= b.len(),
        forall|j: int| 0 <= j < i ==> a[j] == b[j],
    ensures
        pre_list_lt(a, b) == pre_list_lt(a.skip(i), b.skip(i)),
    decreases i,
{
    if i == 0 {
        assert(a.skip(0) =~= a);
        assert(b.skip(0) =~= b);
    } else {
        let a1 = a.drop_first();
        let b1 = b.drop_first();
        assert(forall|j: int| 0 <= j < i - 1 ==> a1[j] == b1[j]);
        lemma_pre_list_lt_common_prefix(a1, b1, i - 1);
        assert(a1.skip(i - 1) =~= a.skip(i));
        assert(b1.skip(i - 1) =~= b.skip(i));
    }
}

// ---------------------------------------------------------------------------
// Executable comparisons
// ---------------------------------------------------------------------------

/// Whether two pre-release identifiers are equal.
pub fn pre_ident_eq(a: &PreIdent, b: &PreIdent) -> (r: bool)
    ensures
        r == (pre_ident_model(*a) == pre_ident_model(*b)),
{
    match (a, b) {
        (PreIdent::Num(x), PreIdent::Num(y)) => *x == *y,
        (PreIdent::Alpha(x), PreIdent::Alpha(y)) => str_eq(x.as_str(), y.as_str()),
        _ => false,
    }
}

/// Whether `a` strictly precedes `b` as a pre-release identifier.
pub fn pre_ident_lt_exec(a: &PreIdent, b: &PreIdent) -> (r: bool)
    ensures
        r == ident_lt(pre_ident_model(*a), pre_ident_model(*b)),
{
    match (a, b) {
        (PreIdent::Num(x), PreIdent::Num(y)) => *x < *y,
        (PreIdent::Num(_), PreIdent::Alpha(_)) => true,
        (PreIdent::Alpha(_), PreIdent::Num(_)) => false,
        (PreIdent::Alpha(x), PreIdent::Alpha(y)) => {
            let le = str_lex_le(x.as_str(), y.as_str());
            let eq = str_eq(x.as_str(), y.as_str());
            proof {
                lemma_lex_lt_trichotomy(x@, y@);
            }
            le && !eq
        },
    }
}

/// Whether `a` is at most `b` in version precedence.
pub fn version_le_exec(a: &SemVer, b: &SemVer) -> (r: bool)
    ensures
        r == version_le(a.model(), b.model()),
{
    let ghost am = a.model();
    let ghost bm = b.model();
    if a.major != b.major {
        return a.major < b.major;
    }
    if a.minor != b.minor {
        return a.minor < b.minor;
    }
    if a.patch != b.patch {
        return a.patch < b.patch;
    }
    let an = a.pre.len();
    let bn = b.pre.len();
    if an == 0 {
        proof {
            if bn == 0 {
                assert(am.pre =~= bm.pre);
            }
        }
        return bn == 0;
    }
    if bn == 0 {
        return true;
    }
    let mut i: usize = 0;
    loop
        invariant
            an == a.pre@.len(),
            bn == b.pre@.len(),
            am == a.model(),
            bm == b.model(),
            am.major == bm.major,
            am.minor == bm.minor,
            am.patch == bm.patch,
            an > 0,
            bn > 0,
            i <= an,
            i <= bn,
            forall|j: int| 0 <= j < i ==> am.pre[j] == bm.pre[j],
        decreases an - i,
    {
        proof {
            lemma_pre_list_lt_common_prefix(am.pre, bm.pre, i as int);
        }
        if i >= an {
            proof {
                if i >= bn {
                    assert(am.pre =~= bm.pre);
                } else {
                    assert(am.pre.skip(i as int).len() == 0);
                    assert(bm.pre.skip(i as int).len() > 0);
                }
            }
            return true;
        }
        if i >= bn {
            proof {
                assert(bm.pre.skip(i as int).len() == 0);
                assert(!pre_list_lt(am.pre, bm.pre));
                if am.pre == bm.pre {
                    assert(am.pre.len() == bm.pre.len());
                    assert(false);
                }
            }
            return false;
        }
        let heads_eq = pre_ident_eq(&a.pre[i], &b.pre[i]);
        proof {
            assert(am.pre[i as int] == pre_ident_model(a.pre@[i as int]));
            assert(bm.pre[i as int] == pre_ident_model(b.pre@[i as int]));
        }
        if heads_eq {
            i = i + 1;
        } else {
            let lt = pre_ident_lt_exec(&a.pre[i], &b.pre[i]);
            proof {
                let sa = am.pre.skip(i as int);
                let sb = bm.pre.skip(i as int);
                assert(sa[0] == am.pre[i as int]);
                assert(sb[0] == bm.pre[i as int]);
                assert(pre_list_lt(sa, sb) == ident_lt(sa[0], sb[0]));
                if am.pre == bm.pre {
                    assert(am.pre[i as int] == bm.pre[i as int]);
                    assert(false);
                }
            }
            return lt;
        }
    }
}

/// Whether `a` is at most `b` in the total sorting order: precedence,
/// then build identifier lists.
pub fn version_full_le_exec(a: &SemVer, b: &SemVer) -> (r: bool)
    ensures
        r == version_full_le(a.model(), b.model()),
{
    let ghost am = a.model();
    let ghost bm = b.model();
    let le_ab = version_le_exec(a, b);
    if !le_ab {
        proof {
            lemma_version_lt_trichotomy(am, bm);
            if am == bm {
                assert(prec_eq(am, bm));
            }
        }
        return false;
    }
    let le_ba = version_le_exec(b, a);
    if !le_ba {
        proof {
            lemma_version_lt_trichotomy(am, bm);
        }
        return true;
    }
    proof {
        lemma_version_lt_trichotomy(am, bm);
        assert(prec_eq(am, bm));
    }
    let an = a.build.len();
    let bn = b.build.len();
    let mut i: usize = 0;
    loop
        invariant
            an == a.build@.len(),
            bn == b.build@.len(),
            am == a.model(),
            bm == b.model(),
            prec_eq(am, bm),
            !version_lt(am, bm),
            i <= an,
            i <= bn,
            forall|j: int| 0 <= j < i ==> am.build[j] == bm.build[j],
        decreases an - i,
    {
        proof {
            lemma_build_lt_common_prefix(am.build, bm.build, i as int);
        }
        if i >= an {
            proof {
                if i >= bn {
                    assert(am.build =~= bm.build);
                    assert(am == bm);
                } else {
                    assert(am.build.skip(i as int).len() == 0);
                    assert(bm.build.skip(i as int).len() > 0);
                }
            }
            return true;
        }
        if i >= bn {
            proof {
                assert(bm.build.skip(i as int).len() == 0);
                assert(!build_lt(am.build, bm.build));
                if am == bm {
                    assert(am.build.len() == bm.build.len());
                    assert(false);
                }
            }
            return false;
        }
        let heads_eq = str_eq(a.build[i].as_str(), b.build[i].as_str());
        proof {
            assert(am.build[i as int] == a.build@[i as int]@);
            assert(bm.build[i as int] == b.build@[i as int]@);
        }
        if heads_eq {
            i = i + 1;
        } else {
            let le = str_lex_le(a.build[i].as_str(), b.build[i].as_str());
            proof {
                let sa = am.build.skip(i as int);
                let sb = bm.build.skip(i as int);
                assert(sa[0] == am.build[i as int]);
                assert(sb[0] == bm.build[i as int]);
                assert(build_lt(sa, sb) == lex_lt(sa[0], sb[0]));
                if am == bm {
                    assert(am.build[i as int] == bm.build[i as int]);
                    assert(false);
                }
            }
            return le;
        }
    }
}

/// Whether two versions are equal outright: equal numbers, pre-release
/// lists and build lists.  This is the equality deduplication uses.
pub fn semver_eq(a: &SemVer, b: &SemVer) -> (r: bool)
    ensures
        r == (a.model() == b.model()),
{
    let ghost am = a.model();
    let ghost bm = b.model();
    if a.major != b.major || a.minor != b.minor || a.patch != b.patch {
        return false;
    }
    let an = a.pre.len();
    let bn = b.pre.len();
    if an != bn {
        proof {
            assert(am.pre.len() != bm.pre.len());
        }
        return false;
    }
    let aw = a.build.len();
    let bw = b.build.len();
    if aw != bw {
        proof {
            assert(am.build.len() != bm.build.len());
        }
        return false;
    }
    let mut i: usize = 0;
    while i < an
        invariant
            an == a.pre@.len(),
            an == b.pre@.len(),
            am == a.model(),
            bm == b.model(),
            i <= an,
            forall|j: int| 0 <= j < i ==> am.pre[j] == bm.pre[j],
        decreases an - i,
    {
        if !pre_ident_eq(&a.pre[i], &b.pre[i]) {
            proof {
                assert(am.pre[i as int] != bm.pre[i as int]);
            }
            return false;
        }
        i = i + 1;
    }
    let mut k: usize = 0;
    while k < aw
        invariant
            aw == a.build@.len(),
            aw == b.build@.len(),
            am == a.model(),
            bm == b.model(),
            k <= aw,
            forall|j: int| 0 <= j < k ==> am.build[j] == bm.build[j],
        decreases aw - k,
    {
        if !str_eq(a.build[k].as_str(), b.build[k].as_str()) {
            proof {
                assert(am.build[k as int] != bm.build[k as int]);
            }
            return false;
        }
        k = k + 1;
    }
    proof {
        assert(am.pre =~= bm.pre);
        assert(am.build =~= bm.build);
    }
    true
}

} // verus!
