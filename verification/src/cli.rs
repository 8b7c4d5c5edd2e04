use vstd::prelude::*;
use crate::text::{decimal, u64_to_decimal};

verus! {

/// Linker/toolchain used to link the final executable.
#[derive(Clone, Copy, Debug, PartialEq, Eq, Structural)]
pub enum LinkerKind {
    /// lld-link with MSVC/Windows SDK
    Msvc,
    /// clang driver as linker
    Clang,
    /// MinGW-w64 (gcc driver)
    Mingw,
}

/// The name under which a linker is chosen on the command line.
pub open spec fn linker_name(k: LinkerKind) -> Seq<char> {
    match k {
        LinkerKind::Msvc => "msvc"@,
        LinkerKind::Clang => "clang"@,
        LinkerKind::Mingw => "mingw"@,
    }
}

impl LinkerKind {
    /// Platform default: `Msvc` when the target is Windows, `Clang` elsewhere.
    pub fn platform_default(target_windows: bool) -> (k: LinkerKind)
        ensures
            k == (if target_windows { LinkerKind::Msvc } else { LinkerKind::Clang }),
    {
        if target_windows {
            LinkerKind::Msvc
        } else {
            LinkerKind::Clang
        }
    }

    /// The command-line name of this linker.
    pub fn name(&self) -> (s: &'static str)
        ensures
            s@ == linker_name(*self),
    {
        match self {
            LinkerKind::Msvc => "msvc",
            LinkerKind::Clang => "clang",
            LinkerKind::Mingw => "mingw",
        }
    }
}

/// What the compiler is asked to do: the source file, the output name
/// (without extension), the linker, release mode and the optimization
/// level.
pub struct Args {
    pub input: String,
    pub output: String,
    pub linker: LinkerKind,
    pub release: bool,
    pub opt_level: Option<u8>,
}

/// How a compilation runs: the level `opt` optimizes the IR at (0: the IR
/// is not optimized) and whether progress goes unprinted.
#[derive(Debug, Clone, Copy, PartialEq, Eq, Structural)]
pub struct BuildMode {
    pub opt_level: u8,
    pub quiet: bool,
}

/// The build mode: an explicit optimization level wins; otherwise release
/// mode optimizes at level 2 and dev mode not at all. Optimized builds print
/// no progress; level 0 is dev mode.
pub fn build_mode(release: bool, opt_level: Option<u8>) -> (m: BuildMode)
    ensures
        m.opt_level == match opt_level {
            Some(l) => l,
            None => if release {
                2u8
            } else {
                0u8
            },
        },
        m.quiet == (m.opt_level > 0),
{
    let level = match opt_level {
        Some(l) => l,
        None => if release {
            2
        } else {
            0
        },
    };
    BuildMode { opt_level: level, quiet: level > 0 }
}

/// The arguments handed to `opt` to optimize the IR file `ll_path` in place
/// at `level`.
pub fn opt_arguments(level: u8, ll_path: &str) -> (args: Vec<String>)
    ensures
        args@.len() == 5,
        args@[0]@ == "-O"@ + decimal(level as nat),
        args@[1]@ == "-S"@,
        args@[2]@ == ll_path@,
        args@[3]@ == "-o"@,
        args@[4]@ == ll_path@,
{
    let mut level_flag = "-O".to_owned();
    level_flag.append(u64_to_decimal(level as u64).as_str());
    let mut args: Vec<String> = Vec::new();
    args.push(level_flag);
    args.push("-S".to_owned());
    args.push(ll_path.to_owned());
    args.push("-o".to_owned());
    args.push(ll_path.to_owned());
    args
}

/// The files of a compilation with output name `output`: the IR
/// (`<output>.ll`), the object file (`.obj` on Windows, `.o` elsewhere) and
/// the executable (`.exe` added on Windows).
pub struct OutputPaths {
    pub ll_path: String,
    pub obj_path: String,
    pub exe_path: String,
}

impl OutputPaths {
    pub fn new(output: &str, target_windows: bool) -> (p: OutputPaths)
        ensures
            p.ll_path@ == output@ + ".ll"@,
            p.obj_path@ == output@ + if target_windows {
                ".obj"@
            } else {
                ".o"@
            },
            p.exe_path@ == if target_windows {
                output@ + ".exe"@
            } else {
                output@
            },
    {
        let mut ll_path = output.to_owned();
        ll_path.append(".ll");
        let mut obj_path = output.to_owned();
        obj_path.append(if target_windows {
            ".obj"
        } else {
            ".o"
        });
        let mut exe_path = output.to_owned();
        if target_windows {
            exe_path.append(".exe");
        }
        OutputPaths { ll_path, obj_path, exe_path }
    }
}

/// The arguments handed to `llc` to compile the IR file `ll_path` into the
/// object file `obj_path`.
pub fn llc_arguments(obj_path: &str, ll_path: &str) -> (args: Vec<String>)
    ensures
        args@.len() == 5,
        args@[0]@ == "--relocation-model=pic"@,
        args@[1]@ == "--filetype=obj"@,
        args@[2]@ == "-o"@,
        args@[3]@ == obj_path@,
        args@[4]@ == ll_path@,
{
    let mut args: Vec<String> = Vec::new();
    args.push("--relocation-model=pic".to_owned());
    args.push("--filetype=obj".to_owned());
    args.push("-o".to_owned());
    args.push(obj_path.to_owned());
    args.push(ll_path.to_owned());
    args
}

} // verus!
