//! What depends on the system the application was built for.

use vstd::prelude::*;

use crate::text;

verus! {

/// The operating system that the application was built for.
#[derive(Clone, Copy, Debug, PartialEq, Eq, Structural)]
pub enum TargetOs {
    Macos,
    Windows,
    /// Linux and whatever is treated like it.
    Linux,
}

/// The processor that the application was built for.
#[derive(Clone, Copy, Debug, PartialEq, Eq, Structural)]
pub enum TargetArch {
    Aarch64,
    /// Any other.
    X86_64,
}

/// The target triple that names a bundled binary.
pub open spec fn target_triple(os: TargetOs, arch: TargetArch) -> Seq<char> {
    match (os, arch) {
        (TargetOs::Macos, TargetArch::Aarch64) => "aarch64-apple-darwin"@,
        (TargetOs::Macos, TargetArch::X86_64) => "x86_64-apple-darwin"@,
        (TargetOs::Windows, _) => "x86_64-pc-windows-msvc"@,
        (TargetOs::Linux, _) => "x86_64-unknown-linux-gnu"@,
    }
}

/// The target triple that names a bundled binary.
pub fn current_target_triple(os: TargetOs, arch: TargetArch) -> (r: &'static str)
    ensures
        r@ == target_triple(os, arch),
        os is Macos && arch is Aarch64 ==> r@ == "aarch64-apple-darwin"@,
        os is Macos && arch is X86_64 ==> r@ == "x86_64-apple-darwin"@,
        os is Windows ==> r@ == "x86_64-pc-windows-msvc"@,
        os is Linux ==> r@ == "x86_64-unknown-linux-gnu"@,
{
    match (os, arch) {
        (TargetOs::Macos, TargetArch::Aarch64) => "aarch64-apple-darwin",
        (TargetOs::Macos, TargetArch::X86_64) => "x86_64-apple-darwin",
        (TargetOs::Windows, _) => "x86_64-pc-windows-msvc",
        (TargetOs::Linux, _) => "x86_64-unknown-linux-gnu",
    }
}

/// The ending of an executable's file name.
pub open spec fn executable_suffix(os: TargetOs) -> Seq<char> {
    if os is Windows {
        ".exe"@
    } else {
        ""@
    }
}

/// The two names under which a bundled binary is looked for, in this order: with the
/// target triple, as bundled, and without it, as built for development.
pub fn sidecar_names(base: &str, os: TargetOs, arch: TargetArch) -> (r: (String, String))
    ensures
        r.0@ == base@ + "-"@ + target_triple(os, arch) + executable_suffix(os),
        r.1@ == base@ + executable_suffix(os),
        r.1@ == base@ + (if os is Windows {
            ".exe"@
        } else {
            ""@
        }),
{
    let suffix: &str = match os {
        TargetOs::Windows => ".exe",
        _ => "",
    };
    let mut first: String = text::joined(base, "-");
    first.append(current_target_triple(os, arch));
    first.append(suffix);
    (first, text::joined(base, suffix))
}

/// Which of the two places holds the binary: the first that exists.
pub fn choose_sidecar(first_exists: bool, second_exists: bool) -> (r: Option<bool>)
    ensures
        first_exists ==> r == Some(true),
        !first_exists && second_exists ==> r == Some(false),
        !first_exists && !second_exists ==> r is None,
{
    if first_exists {
        Some(true)
    } else if second_exists {
        Some(false)
    } else {
        None
    }
}

/// What is reported where neither place holds the binary.
pub fn sidecar_missing(subject: &str, first: &str, second: &str) -> (r: String)
    ensures
        r@ == subject@ + " not found at "@ + first@ + " or "@ + second@,
{
    let mut out: String = text::joined(subject, " not found at ");
    out.append(first);
    out.append(" or ");
    out.append(second);
    out
}

} // verus!
