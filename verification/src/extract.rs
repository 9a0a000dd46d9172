//! The extraction decisions: sanitizing archive entry paths so that no
//! entry can write outside the target root, and the per-file write state
//! machine, including the recovery used when the destination is the
//! currently-running executable.

use vstd::prelude::*;

use crate::Error;
use crate::chars::{find_char, lemma_find_char, subvec, vec_find, chars_vec, string_from_chars};

verus! {

// ---------------------------------------------------------------------------
// Entry path sanitization
// ---------------------------------------------------------------------------

/// A path component that is safe to create under the extraction root:
/// non-empty, not a traversal step, and free of separator and device
/// characters.
pub open spec fn safe_component(c: Seq<char>) -> bool {
    &&& c.len() > 0
    &&& !(c.len() == 1 && c[0] == '.')
    &&& !(c.len() == 2 && c[0] == '.' && c[1] == '.')
    &&& (forall|i: int|
        0 <= i < c.len() ==> #[trigger] c[i] != '/' && c[i] != '\\' && c[i] != ':' && c[i]
            != '\u{0}')
}

/// A component that is dropped when joining rather than created: empty
/// (doubled or stray separators) or the current-directory step.
pub open spec fn skipped_component(c: Seq<char>) -> bool {
    c.len() == 0 || (c.len() == 1 && c[0] == '.')
}

/// A component the extractor refuses outright: the parent-directory
/// step, or a separator or device character inside the name.
pub open spec fn rejected_component(c: Seq<char>) -> bool {
    ||| (c.len() == 2 && c[0] == '.' && c[1] == '.')
    ||| (exists|i: int|
        0 <= i < c.len() && ((#[trigger] c[i]) == '\\' || c[i] == ':' || c[i] == '\u{0}'))
}

pub open spec fn no_slash(c: Seq<char>) -> bool {
    forall|j: int| 0 <= j < c.len() ==> #[trigger] c[j] != '/'
}

/// The segments of `p` between `/` separators.
pub open spec fn split_slash(p: Seq<char>) -> Seq<Seq<char>>
    decreases p.len(),
    via split_slash_decreases
{
    let i = find_char(p, '/');
    if i < 0 {
        seq![p]
    } else {
        seq![p.subrange(0, i)] + split_slash(p.subrange(i + 1, p.len() as int))
    }
}

#[via_fn]
proof fn split_slash_decreases(p: Seq<char>) {
    lemma_find_char(p, '/');
}

proof fn lemma_split_slash_no_slash(p: Seq<char>)
    ensures
        forall|k: int|
            0 <= k < split_slash(p).len() ==> no_slash(#[trigger] split_slash(p)[k]),
    decreases p.len(),
{
    lemma_find_char(p, '/');
    let i = find_char(p, '/');
    if i >= 0 {
        lemma_split_slash_no_slash(p.subrange(i + 1, p.len() as int));
        assert forall|k: int|
            0 <= k < split_slash(p).len() implies no_slash(#[trigger] split_slash(p)[k]) by {
            if k > 0 {
                assert(split_slash(p)[k] == split_slash(p.subrange(i + 1, p.len() as int))[k
                    - 1]);
            }
        }
    }
}

/// An entry name without its directory marker: directories end in `/`.
pub open spec fn entry_body(n: Seq<char>) -> Seq<char> {
    if n.len() > 0 && n[n.len() - 1] == '/' {
        n.drop_last()
    } else {
        n
    }
}

/// The raw path components of an entry.
pub open spec fn entry_components(n: Seq<char>) -> Seq<Seq<char>> {
    split_slash(entry_body(n))
}

/// The components left after the skipped ones are dropped: what the
/// extractor creates under the root.
pub open spec fn kept_components(l: Seq<Seq<char>>) -> Seq<Seq<char>>
    decreases l.len(),
{
    if l.len() == 0 {
        Seq::empty()
    } else {
        kept_components(l.drop_last()) + (if skipped_component(l.last()) {
            Seq::<Seq<char>>::empty()
        } else {
            seq![l.last()]
        })
    }
}

/// Whether an entry may be extracted at all: not an absolute path, and
/// no component refused.
pub open spec fn entry_safe(n: Seq<char>) -> bool {
    &&& !(n.len() > 0 && n[0] == '/')
    &&& (forall|i: int|
        0 <= i < entry_components(n).len() ==> !rejected_component(
            #[trigger] entry_components(n)[i],
        ))
}

fn component_rejected_exec(s: &String) -> (r: bool)
    ensures
        r == rejected_component(s@),
{
    let t = s.as_str();
    let n = t.unicode_len();
    if n == 2 && t.get_char(0) == '.' && t.get_char(1) == '.' {
        return true;
    }
    let mut i: usize = 0;
    while i < n
        invariant
            n == t@.len(),
            t@ == s@,
            i <= n,
            forall|j: int|
                0 <= j < i ==> #[trigger] s@[j] != '\\' && s@[j] != ':' && s@[j] != '\u{0}',
            !(n == 2 && s@[0] == '.' && s@[1] == '.'),
        decreases n - i,
    {
        let c = t.get_char(i);
        if c == '\\' || c == ':' || c == '\u{0}' {
            return true;
        }
        i = i + 1;
    }
    false
}

fn component_skipped_exec(s: &String) -> (r: bool)
    ensures
        r == skipped_component(s@),
{
    let t = s.as_str();
    let n = t.unicode_len();
    n == 0 || (n == 1 && t.get_char(0) == '.')
}

fn split_components(v: &Vec<char>) -> (r: Vec<String>)
    ensures
        r@.map_values(|s: String| s@) == split_slash(v@),
    decreases v@.len(),
{
    let n = v.len();
    match vec_find(v, '/') {
        None => {
            let s = string_from_chars(v, 0, n);
            let ghost sm = s@;
            let mut out: Vec<String> = Vec::new();
            out.push(s);
            proof {
                assert(v@.subrange(0, n as int) =~= v@);
                assert(out@.map_values(|t: String| t@) =~= seq![sm]);
            }
            out
        },
        Some(i) => {
            let head = string_from_chars(v, 0, i);
            let ghost hm = head@;
            let rest = subvec(v, i + 1, n);
            let mut out = split_components(&rest);
            let ghost lm = out@.map_values(|t: String| t@);
            out.insert(0, head);
            proof {
                assert(out@.map_values(|t: String| t@) =~= seq![hm] + lm);
            }
            out
        },
    }
}

/// Checks and splits an archive entry name into the path components to
/// create under the extraction root.  Rejected with
/// `UnsafeArchiveEntry`: absolute paths, any parent-directory component,
/// and separator or device characters inside a component.  Empty and
/// current-directory components are dropped from the returned list, not
/// refused.
pub fn sanitize_entry_path(name: &str) -> (r: Result<Vec<String>, Error>)
    ensures
        match r {
            Ok(c) => entry_safe(name@) && c@.map_values(|s: String| s@) == kept_components(
                entry_components(name@),
            ),
            Err(e) => e == Error::UnsafeArchiveEntry && !entry_safe(name@),
        },
{
    let cs = chars_vec(name);
    let n = cs.len();
    if n > 0 && cs[0] == '/' {
        return Err(Error::UnsafeArchiveEntry);
    }
    let body = if n > 0 && cs[n - 1] == '/' {
        subvec(&cs, 0, n - 1)
    } else {
        subvec(&cs, 0, n)
    };
    proof {
        assert(cs@.subrange(0, n as int) =~= cs@);
        if n > 0 && cs@[n - 1] == '/' {
            assert(body@ =~= entry_body(name@));
        } else {
            assert(body@ =~= entry_body(name@));
        }
    }
    let comps = split_components(&body);
    let ghost mapped = comps@.map_values(|s: String| s@);
    let m = comps.len();
    let mut out: Vec<String> = Vec::new();
    let mut i: usize = 0;
    while i < m
        invariant
            m == comps@.len(),
            i <= m,
            mapped == comps@.map_values(|s: String| s@),
            mapped == entry_components(name@),
            forall|j: int| 0 <= j < i ==> !rejected_component(#[trigger] mapped[j]),
            out@.map_values(|s: String| s@) == kept_components(mapped.subrange(0, i as int)),
        decreases m - i,
    {
        if component_rejected_exec(&comps[i]) {
            proof {
                assert(rejected_component(mapped[i as int]));
            }
            return Err(Error::UnsafeArchiveEntry);
        }
        let skip = component_skipped_exec(&comps[i]);
        proof {
            assert(mapped.subrange(0, i + 1).drop_last() =~= mapped.subrange(0, i as int));
            assert(mapped.subrange(0, i + 1).last() == mapped[i as int]);
        }
        if !skip {
            out.push(comps[i].clone());
        }
        proof {
            assert(out@.map_values(|s: String| s@) =~= kept_components(
                mapped.subrange(0, i + 1),
            ));
        }
        i = i + 1;
    }
    proof {
        assert(mapped.subrange(0, m as int) =~= mapped);
    }
    Ok(out)
}

// ---------------------------------------------------------------------------
// Containment: safe components cannot leave the root
// ---------------------------------------------------------------------------

/// Path resolution over components, the way the platform resolves a
/// relative path: `..` pops a directory (escaping when the stack is
/// empty), `.` stays, and any other name descends.
pub open spec fn resolve_components(stack: Seq<Seq<char>>, comps: Seq<Seq<char>>) -> Option<
    Seq<Seq<char>>,
>
    decreases comps.len(),
{
    if comps.len() == 0 {
        Some(stack)
    } else {
        let c = comps.first();
        if c.len() == 2 && c[0] == '.' && c[1] == '.' {
            if stack.len() == 0 {
                None
            } else {
                resolve_components(stack.drop_last(), comps.drop_first())
            }
        } else if c.len() == 1 && c[0] == '.' {
            resolve_components(stack, comps.drop_first())
        } else {
            resolve_components(stack.push(c), comps.drop_first())
        }
    }
}

/// Law: joining safe components under a root directory resolves to the
/// root followed by exactly those components — it never pops above the
/// root, for any root.
pub proof fn lemma_safe_components_stay_under_root(root: Seq<Seq<char>>, comps: Seq<Seq<char>>)
    requires
        forall|i: int| 0 <= i < comps.len() ==> safe_component(#[trigger] comps[i]),
    ensures
        resolve_components(root, comps) == Some(root + comps),
    decreases comps.len(),
{
    if comps.len() == 0 {
        assert(root + comps =~= root);
    } else {
        let c = comps.first();
        assert(safe_component(comps[0]));
        lemma_safe_components_stay_under_root(root.push(c), comps.drop_first());
        assert(root.push(c) + comps.drop_first() =~= root + comps);
    }
}

proof fn lemma_kept_components_safe(l: Seq<Seq<char>>)
    requires
        forall|i: int| 0 <= i < l.len() ==> !rejected_component(#[trigger] l[i]),
        forall|i: int| 0 <= i < l.len() ==> no_slash(#[trigger] l[i]),
    ensures
        forall|k: int|
            0 <= k < kept_components(l).len() ==> safe_component(
                #[trigger] kept_components(l)[k],
            ),
    decreases l.len(),
{
    if l.len() > 0 {
        lemma_kept_components_safe(l.drop_last());
        let d = kept_components(l.drop_last());
        assert forall|k: int|
            0 <= k < kept_components(l).len() implies safe_component(
            #[trigger] kept_components(l)[k],
        ) by {
            if k < d.len() {
                assert(kept_components(l)[k] == d[k]);
            } else {
                let c = l.last();
                assert(kept_components(l)[k] == c);
                assert(!rejected_component(c));
                assert(!skipped_component(c));
                assert(no_slash(c));
            }
        }
    }
}

/// Law: an entry accepted by `sanitize_entry_path` resolves strictly
/// under the extraction root — joining its kept components under any
/// root yields the root followed by exactly those components.
pub proof fn lemma_sanitized_entry_stays_under_root(root: Seq<Seq<char>>, name: Seq<char>)
    requires
        entry_safe(name),
    ensures
        resolve_components(root, kept_components(entry_components(name))) == Some(
            root + kept_components(entry_components(name)),
        ),
{
    lemma_split_slash_no_slash(entry_body(name));
    lemma_kept_components_safe(entry_components(name));
    lemma_safe_components_stay_under_root(root, kept_components(entry_components(name)));
}

// ---------------------------------------------------------------------------
// The per-file write state machine
// ---------------------------------------------------------------------------

/// The steps of materializing one extracted file.
#[derive(Clone, Copy, PartialEq, Eq, Structural, Debug)]
pub enum WriteFileState {
    /// Try to create or overwrite the destination file.
    Creating,
    /// Creation failed because the destination is a running executable:
    /// read the existing file's permission bits.
    ReadingPerms,
    /// Remove the busy file; `mode` holds the bits that were read.
    Removing { mode: u32 },
    /// Create the file anew at the same path.
    Recreating { mode: u32 },
    /// Re-apply the saved permission bits to the new file.
    SettingPerms { mode: u32 },
    /// Copy the entry's decompressed bytes into the open destination.
    Copying,
    /// The file is written.
    Done,
    /// An unrecoverable I/O failure; terminal.
    Failed,
}

/// What the driver reports back after performing each write action.
#[derive(Clone, Copy, PartialEq, Eq, Structural, Debug)]
pub enum WriteFileEvent {
    /// The destination was created or truncated.
    Created,
    /// Creation failed with the platform's executable-busy condition.
    CreateBusy,
    /// The existing file's permission bits were read.
    PermsRead(u32),
    /// The busy file was removed.
    Removed,
    /// The replacement file was created.
    Recreated,
    /// The saved permission bits were applied.
    PermsSet,
    /// The entry's bytes were copied in full.
    Copied,
    /// Any other I/O failure.
    Io,
}

/// The transition relation of writing one file.  Any other I/O failure
/// is fatal from every non-final state; events that do not apply leave
/// the state unchanged.
pub open spec fn spec_write_step(s: WriteFileState, e: WriteFileEvent) -> WriteFileState {
    match (s, e) {
        (WriteFileState::Creating, WriteFileEvent::Created) => WriteFileState::Copying,
        (WriteFileState::Creating, WriteFileEvent::CreateBusy) => WriteFileState::ReadingPerms,
        (WriteFileState::ReadingPerms, WriteFileEvent::PermsRead(m)) => WriteFileState::Removing {
            mode: m,
        },
        (WriteFileState::Removing { mode }, WriteFileEvent::Removed) => WriteFileState::Recreating {
            mode,
        },
        (
            WriteFileState::Recreating { mode },
            WriteFileEvent::Recreated,
        ) => WriteFileState::SettingPerms { mode },
        (WriteFileState::SettingPerms { mode: _ }, WriteFileEvent::PermsSet) => WriteFileState::Copying,
        (WriteFileState::Copying, WriteFileEvent::Copied) => WriteFileState::Done,
        (WriteFileState::Done, _) => WriteFileState::Done,
        (_, WriteFileEvent::Io) => WriteFileState::Failed,
        (_, _) => s,
    }
}

/// One step of the per-file write state machine.
pub fn write_file_step(s: WriteFileState, e: WriteFileEvent) -> (r: WriteFileState)
    ensures
        r == spec_write_step(s, e),
{
    match (s, e) {
        (WriteFileState::Creating, WriteFileEvent::Created) => WriteFileState::Copying,
        (WriteFileState::Creating, WriteFileEvent::CreateBusy) => WriteFileState::ReadingPerms,
        (WriteFileState::ReadingPerms, WriteFileEvent::PermsRead(m)) => WriteFileState::Removing {
            mode: m,
        },
        (WriteFileState::Removing { mode }, WriteFileEvent::Removed) => WriteFileState::Recreating {
            mode,
        },
        (
            WriteFileState::Recreating { mode },
            WriteFileEvent::Recreated,
        ) => WriteFileState::SettingPerms { mode },
        (WriteFileState::SettingPerms { mode: _ }, WriteFileEvent::PermsSet) => WriteFileState::Copying,
        (WriteFileState::Copying, WriteFileEvent::Copied) => WriteFileState::Done,
        (WriteFileState::Done, _) => WriteFileState::Done,
        (_, WriteFileEvent::Io) => WriteFileState::Failed,
        (_, _) => s,
    }
}

/// The error an unrecoverable write surfaces as.
pub fn write_failure_error(s: WriteFileState) -> (r: Option<Error>)
    ensures
        r == (if s == WriteFileState::Failed {
            Some(Error::ExtractionFailed)
        } else {
            None::<Error>
        }),
{
    if s == WriteFileState::Failed {
        Some(Error::ExtractionFailed)
    } else {
        None
    }
}

/// Law: busy-executable recovery carries the permission bits read from
/// the original file unchanged into the step that re-applies them — the
/// replacement keeps the original file's permission bits.
pub proof fn lemma_busy_recovery_preserves_mode(m: u32)
    ensures
        ({
            let s1 = spec_write_step(WriteFileState::Creating, WriteFileEvent::CreateBusy);
            let s2 = spec_write_step(s1, WriteFileEvent::PermsRead(m));
            let s3 = spec_write_step(s2, WriteFileEvent::Removed);
            let s4 = spec_write_step(s3, WriteFileEvent::Recreated);
            let s5 = spec_write_step(s4, WriteFileEvent::PermsSet);
            &&& s2 == WriteFileState::Removing { mode: m }
            &&& s3 == WriteFileState::Recreating { mode: m }
            &&& s4 == WriteFileState::SettingPerms { mode: m }
            &&& s5 == WriteFileState::Copying
        }),
{
}

} // verus!
