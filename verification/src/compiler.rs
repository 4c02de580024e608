use vstd::prelude::*;

verus! {

/// An operating system that the Cabin programming language supports.
#[derive(Debug, Clone, Copy, PartialEq, Eq, Structural)]
pub enum Os {
    /// The Windows operating systems.
    Windows,
    /// The Unix operating systems, such as Linux and MacOs.
    Unix,
}

/// The extension, including the dot, of a native executable on the given operating system:
/// `.exe` on Windows and nothing on Unix.
pub fn get_native_executable_extension(os: Os) -> (res: &'static str)
    ensures
        os == Os::Windows ==> res@ == ".exe"@,
        os == Os::Unix ==> res@ == ""@,
{
    match os {
        Os::Windows => ".exe",
        Os::Unix => "",
    }
}

} // verus!
