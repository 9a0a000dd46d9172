//! The decisions of the three commands: which packages an install
//! request resolves to, what a listing request asks for, and what an
//! update derives from the installed binary's version report.

use vstd::prelude::*;

use crate::Error;
use crate::chars::{find_char, vec_find, chars_vec, string_from_chars, str_eq};
use crate::semver::{
    SemVer, VersionModel, PreIdentModel, spec_parse, fits_u64, parse_version, join_dot,
};

verus! {

// ---------------------------------------------------------------------------
// Package requests
// ---------------------------------------------------------------------------

/// The pre-release identifiers of a version model, as text.
pub open spec fn fmt_pre_ident_model(p: PreIdentModel) -> Seq<char> {
    match p {
        PreIdentModel::Num(n) => crate::semver::dec_rep(n),
        PreIdentModel::Alpha(s) => s,
    }
}

/// The branch a caller-supplied exact version names: its pre-release
/// list, identifiers joined by dots.
pub open spec fn branch_of_model(m: VersionModel) -> Seq<char> {
    join_dot(m.pre.map_values(|p: PreIdentModel| fmt_pre_ident_model(p)))
}

/// One package request of an installation plan.
#[derive(Debug)]
pub struct PackageRequest {
    pub name: String,
    pub arch: Option<String>,
    pub branch: String,
    /// The caller-supplied exact version; resolve `latest` when absent.
    pub exact: Option<SemVer>,
    /// Whether this package's failure aborts the whole request.
    pub primary: bool,
}

/// The mathematical model of a package request.
pub ghost struct RequestModel {
    pub name: Seq<char>,
    pub arch: Option<Seq<char>>,
    pub branch: Seq<char>,
    pub exact: Option<VersionModel>,
    pub primary: bool,
}

pub open spec fn request_model(r: PackageRequest) -> RequestModel {
    RequestModel {
        name: r.name@,
        arch: match r.arch {
            Some(a) => Some(a@),
            None => None,
        },
        branch: r.branch@,
        exact: match r.exact {
            Some(v) => Some(v.model()),
            None => None,
        },
        primary: r.primary,
    }
}

pub open spec fn request_models(s: Seq<PackageRequest>) -> Seq<RequestModel> {
    s.map_values(|r: PackageRequest| request_model(r))
}

// ---------------------------------------------------------------------------
// The install command
// ---------------------------------------------------------------------------

/// An install request as the command line delivers it: positional
/// arguments, an architecture override, and an install directory
/// override.
#[derive(Debug)]
pub struct Install {
    pub args: Option<Vec<String>>,
    pub arch: Option<String>,
    pub dir: Option<String>,
}

impl Default for Install {
    /// An install request with no arguments and no overrides.
    fn default() -> (r: Self)
        ensures
            r.args is None,
            r.arch is None,
            r.dir is None,
    {
        Install { args: None, arch: None, dir: None }
    }
}

pub open spec fn arch_or(a: Option<Seq<char>>, dflt: Seq<char>) -> Seq<char> {
    match a {
        Some(x) => x,
        None => dflt,
    }
}

/// The standard triple installed for one branch: the native core as the
/// primary package, then the language and explorer packages, whose
/// failures are reported but swallowed.
pub open spec fn spec_triple(
    branch: Seq<char>,
    arch: Option<Seq<char>>,
    dflt: Seq<char>,
) -> Seq<RequestModel> {
    seq![
        RequestModel {
            name: "core"@,
            arch: Some(arch_or(arch, dflt)),
            branch: branch,
            exact: None,
            primary: true,
        },
        RequestModel { name: "lang"@, arch: None, branch: branch, exact: None, primary: false },
        RequestModel {
            name: "explorer"@,
            arch: Some("noarch"@),
            branch: branch,
            exact: None,
            primary: false,
        },
    ]
}

/// What an install command's arguments resolve to.  No arguments: the
/// standard triple on `stable`.  One argument: the standard triple on
/// that branch.  Two arguments: one package; when the second argument
/// parses as an exact version, install exactly it, on the branch its
/// pre-release list names; otherwise treat it as a branch and resolve
/// `latest`.  Anything else is refused.
pub open spec fn spec_install_plan(
    args: Option<Seq<Seq<char>>>,
    arch: Option<Seq<char>>,
    dflt: Seq<char>,
) -> Option<Seq<RequestModel>> {
    match args {
        None => Some(spec_triple("stable"@, arch, dflt)),
        Some(l) => {
            if l.len() == 1 {
                Some(spec_triple(l[0], arch, dflt))
            } else if l.len() == 2 {
                let name = l[0];
                let sel = l[1];
                let carch: Option<Seq<char>> = if name == "core"@ {
                    Some(arch_or(arch, dflt))
                } else {
                    None
                };
                match spec_parse(sel) {
                    Some(m) => if fits_u64(m) {
                        Some(
                            seq![
                                RequestModel {
                                    name: name,
                                    arch: carch,
                                    branch: branch_of_model(m),
                                    exact: Some(m),
                                    primary: true,
                                },
                            ],
                        )
                    } else {
                        Some(
                            seq![
                                RequestModel {
                                    name: name,
                                    arch: carch,
                                    branch: sel,
                                    exact: None,
                                    primary: true,
                                },
                            ],
                        )
                    },
                    None => Some(
                        seq![
                            RequestModel {
                                name: name,
                                arch: carch,
                                branch: sel,
                                exact: None,
                                primary: true,
                            },
                        ],
                    ),
                }
            } else {
                None
            }
        },
    }
}

impl Install {
    pub open spec fn args_model(self) -> Option<Seq<Seq<char>>> {
        match self.args {
            None => None,
            Some(v) => Some(v@.map_values(|s: String| s@)),
        }
    }

    pub open spec fn arch_model(self) -> Option<Seq<char>> {
        match self.arch {
            None => None,
            Some(s) => Some(s@),
        }
    }

    /// The decisions of the install command: the package requests to
    /// perform, in order, or nothing when the arguments are refused.
    /// `default_arch` is the build's native architecture, used where no
    /// override was given.
    pub fn plan(self, default_arch: &str) -> (r: Option<Vec<PackageRequest>>)
        ensures
            match r {
                Some(v) => spec_install_plan(self.args_model(), self.arch_model(), default_arch@)
                    == Some(request_models(v@)) && (forall|i: int|
                    0 <= i < v@.len() ==> (match #[trigger] v@[i].exact {
                        Some(sv) => sv.wf(),
                        None => true,
                    })),
                None => spec_install_plan(
                    self.args_model(),
                    self.arch_model(),
                    default_arch@,
                ) is None,
            },
    {
        let Install { args, arch, dir: _ } = self;
        match args {
            None => Some(triple_requests("stable", arch, default_arch)),
            Some(l) => {
                if l.len() == 1 {
                    let branch = l[0].clone();
                    Some(triple_requests(branch.as_str(), arch, default_arch))
                } else if l.len() == 2 {
                    let name = l[0].clone();
                    let sel = l[1].clone();
                    let is_core = str_eq(name.as_str(), "core");
                    let carch: Option<String> = if is_core {
                        match arch {
                            Some(a) => Some(a),
                            None => Some(default_arch.to_owned()),
                        }
                    } else {
                        None
                    };
                    let mut v: Vec<PackageRequest> = Vec::new();
                    match parse_version(sel.as_str()) {
                        Ok(sv) => {
                            let branch = sv.pre_release_string();
                            proof {
                                let m = sv.model();
                                assert(sv.pre_seqs() =~= m.pre.map_values(
                                    |p: PreIdentModel| fmt_pre_ident_model(p),
                                ));
                                assert(branch@ == branch_of_model(m));
                            }
                            v.push(
                                PackageRequest {
                                    name,
                                    arch: carch,
                                    branch,
                                    exact: Some(sv),
                                    primary: true,
                                },
                            );
                        },
                        Err(_) => {
                            v.push(
                                PackageRequest {
                                    name,
                                    arch: carch,
                                    branch: sel,
                                    exact: None,
                                    primary: true,
                                },
                            );
                        },
                    }
                    proof {
                        assert(request_models(v@) =~= spec_install_plan(
                            self.args_model(),
                            self.arch_model(),
                            default_arch@,
                        ).unwrap());
                    }
                    Some(v)
                } else {
                    None
                }
            },
        }
    }
}

fn triple_requests(branch: &str, arch: Option<String>, default_arch: &str) -> (r: Vec<
    PackageRequest,
>)
    ensures
        request_models(r@) == spec_triple(
            branch@,
            match arch {
                Some(a) => Some(a@),
                None => None,
            },
            default_arch@,
        ),
        forall|i: int|
            0 <= i < r@.len() ==> (match #[trigger] r@[i].exact {
                Some(sv) => sv.wf(),
                None => true,
            }),
{
    let core_arch: String = match arch {
        Some(a) => a,
        None => default_arch.to_owned(),
    };
    let mut v: Vec<PackageRequest> = Vec::new();
    v.push(
        PackageRequest {
            name: String::from_str("core"),
            arch: Some(core_arch),
            branch: branch.to_owned(),
            exact: None,
            primary: true,
        },
    );
    v.push(
        PackageRequest {
            name: String::from_str("lang"),
            arch: None,
            branch: branch.to_owned(),
            exact: None,
            primary: false,
        },
    );
    v.push(
        PackageRequest {
            name: String::from_str("explorer"),
            arch: Some(String::from_str("noarch")),
            branch: branch.to_owned(),
            exact: None,
            primary: false,
        },
    );
    proof {
        assert(request_models(v@) =~= spec_triple(
            branch@,
            match arch {
                Some(a) => Some(a@),
                None => None,
            },
            default_arch@,
        ));
    }
    v
}

// ---------------------------------------------------------------------------
// The list command
// ---------------------------------------------------------------------------

/// A listing request as the command line delivers it.
#[derive(Debug)]
pub struct List {
    pub package: Option<String>,
    pub branch: Option<String>,
    pub limit: usize,
    pub verbose: u8,
}

/// What a listing request asks for.
#[derive(Debug)]
pub enum ListPlan {
    /// List every package of the registry.
    Packages,
    /// Listing every package of one branch is not part of the registry
    /// protocol; the command reports it as unsupported.
    BranchOnly { branch: String },
    /// List the branches of one package.
    Branches { name: String },
    /// List the versions of one package's branch, newest-limited.
    Versions { name: String, branch: String, limit: usize },
}

impl List {
    /// The decision of the list command, from which of package and
    /// branch were given.
    pub fn plan(self) -> (r: ListPlan)
        ensures
            match r {
                ListPlan::Packages => self.package is None && self.branch is None,
                ListPlan::BranchOnly { branch } => self.package is None && self.branch == Some(
                    branch,
                ),
                ListPlan::Branches { name } => self.package == Some(name) && self.branch is None,
                ListPlan::Versions { name, branch, limit } => self.package == Some(name)
                    && self.branch == Some(branch) && limit == self.limit,
            },
    {
        let List { package, branch, limit, verbose: _ } = self;
        match (package, branch) {
            (None, None) => ListPlan::Packages,
            (None, Some(b)) => ListPlan::BranchOnly { branch: b },
            (Some(p), None) => ListPlan::Branches { name: p },
            (Some(p), Some(b)) => ListPlan::Versions { name: p, branch: b, limit },
        }
    }
}

// ---------------------------------------------------------------------------
// The update command
// ---------------------------------------------------------------------------

/// An update request: no parameters of its own.
#[derive(Debug)]
pub struct Update {}

/// The architecture text of a version report, trimmed of its `(` prefix
/// and `)\n` suffix; when the suffix is absent after the prefix was
/// removed, the text is taken as it came.
pub open spec fn spec_trim_arch(a: Seq<char>) -> Seq<char> {
    let a1 = if a.len() > 0 && a[0] == '(' {
        a.drop_first()
    } else {
        a
    };
    if a1.len() >= 2 && a1[a1.len() - 2] == ')' && a1[a1.len() - 1] == '\n' {
        a1.subrange(0, a1.len() - 2)
    } else {
        a
    }
}

fn trim_arch(a: &Vec<char>, from: usize) -> (r: String)
    requires
        from <= a@.len(),
    ensures
        r@ == spec_trim_arch(a@.subrange(from as int, a@.len() as int)),
{
    let n = a.len();
    let ghost t = a@.subrange(from as int, n as int);
    let start = if from < n && a[from] == '(' {
        from + 1
    } else {
        from
    };
    let ghost t1 = a@.subrange(start as int, n as int);
    proof {
        if from < n && a@[from as int] == '(' {
            assert(t1 =~= t.drop_first());
        } else {
            assert(t1 =~= t);
        }
    }
    if n - start >= 2 && a[n - 2] == ')' && a[n - 1] == '\n' {
        let r = string_from_chars(a, start, n - 2);
        proof {
            assert(r@ =~= t1.subrange(0, t1.len() - 2));
        }
        r
    } else {
        let r = string_from_chars(a, from, n);
        proof {
            assert(r@ =~= t);
        }
        r
    }
}

/// The decision of the update command, from the installed binary's
/// version report `"{version} ({arch})\n"`: reinstall the reported
/// version's branch for the reported architecture.  A report without a
/// space means no usable installation — a plain default install.  A
/// report whose version does not parse is an error.
pub fn update_plan(output: &str) -> (r: Result<Option<Install>, Error>)
    ensures
        match r {
            Ok(opt) => match opt {
                None => find_char(output@, ' ') == -1,
                Some(inst) => {
                    &&& find_char(output@, ' ') >= 0
                    &&& (match spec_parse(
                        output@.subrange(0, find_char(output@, ' ')),
                    ) {
                        Some(m) => fits_u64(m) && (match inst.args {
                            Some(l) => l@.len() == 1 && l@[0]@ == branch_of_model(m),
                            None => false,
                        }),
                        None => false,
                    })
                    &&& (match inst.arch {
                        Some(a) => a@ == spec_trim_arch(
                            output@.subrange(
                                find_char(output@, ' ') + 1,
                                output@.len() as int,
                            ),
                        ),
                        None => false,
                    })
                    &&& inst.dir is None
                },
            },
            Err(e) => e == Error::MalformedVersion && find_char(output@, ' ') >= 0 && (match
                spec_parse(output@.subrange(0, find_char(output@, ' '))) {
                None => true,
                Some(m) => !fits_u64(m),
            }),
        },
{
    let cs = chars_vec(output);
    let n = cs.len();
    match vec_find(&cs, ' ') {
        None => Ok(None),
        Some(i) => {
            let vtext = string_from_chars(&cs, 0, i);
            let arch = trim_arch(&cs, i + 1);
            match parse_version(vtext.as_str()) {
                Ok(sv) => {
                    let branch = sv.pre_release_string();
                    proof {
                        let m = sv.model();
                        assert(sv.pre_seqs() =~= m.pre.map_values(
                            |p: PreIdentModel| fmt_pre_ident_model(p),
                        ));
                        assert(branch@ == branch_of_model(m));
                    }
                    let mut args: Vec<String> = Vec::new();
                    args.push(branch);
                    Ok(
                        Some(
                            Install { args: Some(args), arch: Some(arch), dir: None },
                        ),
                    )
                },
                Err(e) => Err(e),
            }
        },
    }
}

} // verus!
