//! Install procedures: the declared steps of a component and their
//! compilation, for a resolved version and a platform, into concrete
//! install actions.

use vstd::prelude::*;
use vstd::string::*;

use crate::cross_platform::MaybeCrossPlatform;
use crate::platform::Platform;
use crate::platform::PlatformId;
use crate::text::str_eq;
use crate::version::Version;

verus! {

/// Why a procedure step failed to compile.
#[derive(Debug, Clone, Copy, PartialEq, Eq)]
pub enum CompileError {
    /// The download template holds a brace that is not part of a
    /// `{version}` placeholder.
    MalformedTemplate,
    /// The substituted download template is not an absolute URL.
    InvalidUrl,
    /// The command list is empty, so there is no program to run.
    EmptyCommand,
}

/// The placeholder text a download template marks the version with.
pub open spec fn placeholder() -> Seq<char> {
    seq!['{', 'v', 'e', 'r', 's', 'i', 'o', 'n', '}']
}

/// The template text with every `{version}` placeholder replaced by `v`,
/// or nothing when the template holds any other use of a brace.
pub open spec fn subst(t: Seq<char>, v: Seq<char>) -> Option<Seq<char>>
    decreases t.len(),
{
    if t.len() == 0 {
        Some(Seq::<char>::empty())
    } else if t[0] == '{' {
        if t.len() >= 9 && t.subrange(0, 9) == placeholder() {
            match subst(t.skip(9), v) {
                Some(rest) => Some(v + rest),
                None => None,
            }
        } else {
            None
        }
    } else if t[0] == '}' {
        None
    } else {
        match subst(t.skip(1), v) {
            Some(rest) => Some(seq![t[0]] + rest),
            None => None,
        }
    }
}

/// Replaces every `{version}` placeholder of `template` with `value`.
pub fn substitute(template: &str, value: &str) -> (r: Option<String>)
    ensures
        match r {
            Some(s) => subst(template@, value@) == Some(s@),
            None => subst(template@, value@) is None,
        },
{
    proof {
        reveal_strlit("{version}");
        assert("{version}"@ =~= placeholder());
        assert(template@.skip(0) =~= template@);
    }
    let n = template.unicode_len();
    let mut out = String::new();
    let mut i: usize = 0;
    while i < n
        invariant
            0 <= i <= n,
            n == template@.len(),
            match subst(template@.skip(i as int), value@) {
                Some(rest) => subst(template@, value@) == Some(out@ + rest),
                None => subst(template@, value@) is None,
            },
        decreases n - i,
    {
        let c = template.get_char(i);
        proof {
            reveal_strlit("{version}");
            assert("{version}"@ =~= placeholder());
            assert(template@.skip(i as int)[0] == template@[i as int]);
        }
        if c == '{' {
            if n - i >= 9 && str_eq(template.substring_char(i, i + 9), "{version}") {
                proof {
                    assert(template@.subrange(i as int, i as int + 9) =~= template@.skip(
                        i as int,
                    ).subrange(0, 9));
                    assert(template@.skip(i as int).skip(9) =~= template@.skip(i as int + 9));
                }
                let ghost out0 = out@;
                out.append(value);
                proof {
                    match subst(template@.skip(i as int + 9), value@) {
                        Some(rest) => {
                            assert(out0 + (value@ + rest) =~= out@ + rest);
                        },
                        None => {},
                    }
                }
                i = i + 9;
            } else {
                proof {
                    if n - i >= 9 {
                        assert(template@.subrange(i as int, i as int + 9) =~= template@.skip(
                            i as int,
                        ).subrange(0, 9));
                    } else {
                        assert(template@.skip(i as int).len() < 9);
                    }
                }
                return None;
            }
        } else if c == '}' {
            return None;
        } else {
            let piece = template.substring_char(i, i + 1);
            proof {
                assert(piece@ =~= seq![template@[i as int]]);
                assert(template@.skip(i as int).skip(1) =~= template@.skip(i as int + 1));
            }
            let ghost out0 = out@;
            out.append(piece);
            proof {
                match subst(template@.skip(i as int + 1), value@) {
                    Some(rest) => {
                        assert(out0 + (seq![template@[i as int]] + rest) =~= out@ + rest);
                    },
                    None => {},
                }
            }
            i = i + 1;
        }
    }
    proof {
        assert(template@.skip(n as int).len() == 0);
        assert(out@ + Seq::<char>::empty() =~= out@);
    }
    Some(out)
}

/// Whether `s` parses as an absolute URL.
pub uninterp spec fn url_ok(s: Seq<char>) -> bool;

/// Relies on `url::Url::parse` (re-exported as `reqwest::Url`): acceptance
/// depends on the string alone, and a relative reference is rejected, so an
/// accepted string is an absolute URL.
#[verifier::external_body]
fn url_is_valid(s: &str) -> (b: bool)
    ensures
        b == url_ok(s@),
{
    reqwest::Url::parse(s).is_ok()
}

/// The version a step resolves with, as a plain optional value.
pub open spec fn opt_version(v: Option<&Version>) -> Option<Version> {
    match v {
        None => None,
        Some(x) => Some(*x),
    }
}

/// A download step: a cross-platform URL template with a `{version}`
/// placeholder.
pub struct Download(pub MaybeCrossPlatform<String>);

/// What compiling a download step yields: absence when no version is
/// resolved or the platform has no template; otherwise the substituted
/// template, which must be an absolute URL.
pub open spec fn spec_get_url(d: Download, v: Option<Version>, p: PlatformId) -> Result<
    Option<Seq<char>>,
    CompileError,
> {
    match v {
        None => Ok(None),
        Some(ver) => match d.0.spec_get(p) {
            None => Ok(None),
            Some(t) => match subst(t@, ver.spec_text()) {
                None => Err(CompileError::MalformedTemplate),
                Some(u) => if url_ok(u) {
                    Ok(Some(u))
                } else {
                    Err(CompileError::InvalidUrl)
                },
            },
        },
    }
}

impl Download {
    /// Resolves the template for the current platform and substitutes the
    /// version into it.
    pub fn get_url(&self, version: Option<&Version>, current: &Platform) -> (r: Result<
        Option<String>,
        CompileError,
    >)
        ensures
            match r {
                Ok(None) => spec_get_url(*self, opt_version(version), current@) == Ok::<
                    Option<Seq<char>>,
                    CompileError,
                >(None),
                Ok(Some(u)) => spec_get_url(*self, opt_version(version), current@) == Ok::<
                    Option<Seq<char>>,
                    CompileError,
                >(Some(u@)),
                Err(e) => spec_get_url(*self, opt_version(version), current@) == Err::<
                    Option<Seq<char>>,
                    CompileError,
                >(e),
            },
    {
        let ver = match version {
            None => {
                return Ok(None);
            },
            Some(v) => v,
        };
        let template = match self.0.get(current) {
            None => {
                return Ok(None);
            },
            Some(t) => t,
        };
        let ver_text = ver.to_text();
        match substitute(template.as_str(), ver_text.as_str()) {
            None => Err(CompileError::MalformedTemplate),
            Some(u) => {
                if url_is_valid(u.as_str()) {
                    Ok(Some(u))
                } else {
                    Err(CompileError::InvalidUrl)
                }
            },
        }
    }
}

/// A run step: a cross-platform command list; the first element is the
/// program, the rest its arguments.
pub struct Run(pub MaybeCrossPlatform<Vec<String>>);

/// A concrete command to run: the program, its arguments, and the value of
/// the `VERSION` environment variable handed to it.
#[derive(Debug, PartialEq, Eq)]
pub struct RunCommand {
    pub program: String,
    pub args: Vec<String>,
    pub env_version: String,
}

impl Run {
    /// Resolves the command list for the current platform and injects the
    /// version for the command's environment.
    pub fn get_command(&self, version: Option<&Version>, current: &Platform) -> (r: Result<
        Option<RunCommand>,
        CompileError,
    >)
        ensures
            match opt_version(version) {
                None => r == Ok::<Option<RunCommand>, CompileError>(None),
                Some(ver) => match self.0.spec_get(current@) {
                    None => r == Ok::<Option<RunCommand>, CompileError>(None),
                    Some(c) => if c@.len() == 0 {
                        r == Err::<Option<RunCommand>, CompileError>(CompileError::EmptyCommand)
                    } else {
                        r matches Ok(Some(cmd)) && cmd.program == c@[0] && cmd.args@ == c@.skip(1)
                            && cmd.env_version@ == ver.spec_text()
                    },
                },
            },
    {
        let ver = match version {
            None => {
                return Ok(None);
            },
            Some(v) => v,
        };
        let c = match self.0.get(current) {
            None => {
                return Ok(None);
            },
            Some(c) => c,
        };
        if c.len() == 0 {
            return Err(CompileError::EmptyCommand);
        }
        let program = c[0].clone();
        let mut args: Vec<String> = Vec::new();
        let mut j: usize = 1;
        while j < c.len()
            invariant
                1 <= j <= c@.len(),
                args@ == c@.subrange(1, j as int),
            decreases c@.len() - j,
        {
            args.push(c[j].clone());
            proof {
                assert(args@ =~= c@.subrange(1, j + 1));
            }
            j = j + 1;
        }
        proof {
            assert(c@.subrange(1, c@.len() as int) =~= c@.skip(1));
        }
        let env_version = ver.to_text();
        Ok(Some(RunCommand { program, args, env_version }))
    }
}

/// One declared step of a component's install procedure.
pub enum Procedure {
    Download(Download),
    Unzip,
    Run(Run),
}

/// One concrete install action.
pub enum InstallStep {
    /// Fetch the named absolute URL.
    Download(String),
    /// Unpack what the previous step fetched.
    Unzip,
    /// Run the command.
    Run(RunCommand),
}

/// Whether `r` is the compiled form of step `p` for version `v` on
/// platform `plat`.
pub open spec fn compiled_step(
    p: Procedure,
    v: Option<Version>,
    plat: PlatformId,
    r: Result<Option<InstallStep>, CompileError>,
) -> bool {
    match p {
        Procedure::Unzip => r == Ok::<Option<InstallStep>, CompileError>(
            Some(InstallStep::Unzip),
        ),
        Procedure::Download(d) => match spec_get_url(d, v, plat) {
            Ok(None) => r == Ok::<Option<InstallStep>, CompileError>(None),
            Ok(Some(u)) => r matches Ok(Some(InstallStep::Download(s))) && s@ == u,
            Err(e) => r == Err::<Option<InstallStep>, CompileError>(e),
        },
        Procedure::Run(rn) => match v {
            None => r == Ok::<Option<InstallStep>, CompileError>(None),
            Some(ver) => match rn.0.spec_get(plat) {
                None => r == Ok::<Option<InstallStep>, CompileError>(None),
                Some(c) => if c@.len() == 0 {
                    r == Err::<Option<InstallStep>, CompileError>(CompileError::EmptyCommand)
                } else {
                    r matches Ok(Some(InstallStep::Run(cmd))) && cmd.program == c@[0] && cmd.args@
                        == c@.skip(1) && cmd.env_version@ == ver.spec_text()
                },
            },
        },
    }
}

impl Procedure {
    /// Compiles this step for the given resolved version and platform.
    pub fn compile(&self, version: Option<&Version>, current: &Platform) -> (r: Result<
        Option<InstallStep>,
        CompileError,
    >)
        ensures
            compiled_step(*self, opt_version(version), current@, r),
    {
        match self {
            Procedure::Unzip => Ok(Some(InstallStep::Unzip)),
            Procedure::Download(d) => match d.get_url(version, current) {
                Ok(None) => Ok(None),
                Ok(Some(u)) => Ok(Some(InstallStep::Download(u))),
                Err(e) => Err(e),
            },
            Procedure::Run(rn) => match rn.get_command(version, current) {
                Ok(None) => Ok(None),
                Ok(Some(cmd)) => Ok(Some(InstallStep::Run(cmd))),
                Err(e) => Err(e),
            },
        }
    }
}

} // verus!
