use vstd::prelude::*;

verus! {

/// The character of a decimal digit.
pub open spec fn digit_char(d: nat) -> char {
    (48 + d) as char
}

/// A number written in decimal, without leading zeros.
pub open spec fn decimal(n: nat) -> Seq<char>
    decreases n,
{
    if n < 10 {
        seq![digit_char(n)]
    } else {
        decimal(n / 10).push(digit_char(n % 10))
    }
}

/// The text of a version with the given numbers and no pre-release or build part:
/// `major.minor.patch`, each in decimal.
pub open spec fn version_text_of(major: u64, minor: u64, patch: u64) -> Seq<char> {
    decimal(major as nat) + seq!['.'] + decimal(minor as nat) + seq!['.'] + decimal(patch as nat)
}

/// Calls `semver::Version::new` and the `Display` implementation of `semver::Version`, which
/// writes the major, minor and patch numbers separated by dots (a version made by `new` has no
/// pre-release or build part).
#[verifier::external_body]
fn semver_text(major: u64, minor: u64, patch: u64) -> (res: String)
    ensures
        res@ == version_text_of(major, minor, patch),
{
    semver::Version::new(major, minor, patch).to_string()
}

/// The version of a project: its major, minor and patch numbers.
#[derive(Debug, Clone, Copy, PartialEq, Eq, Structural)]
pub struct ProjectVersion {
    pub major: u64,
    pub minor: u64,
    pub patch: u64,
}

/// The version published after `v`: a major release raises the major number and resets the
/// others, a minor release raises the minor number and resets the patch number, and a patch
/// release raises the patch number. When several are asked for, the largest wins.
pub open spec fn next_version(v: ProjectVersion, major: bool, minor: bool, patch: bool) -> ProjectVersion {
    if major {
        ProjectVersion { major: (v.major + 1) as u64, minor: 0, patch: 0 }
    } else if minor {
        ProjectVersion { major: v.major, minor: (v.minor + 1) as u64, patch: 0 }
    } else {
        ProjectVersion { major: v.major, minor: v.minor, patch: (v.patch + 1) as u64 }
    }
}

/// The number that a release raises stays below the largest `u64`, so that it can be raised.
pub open spec fn can_bump(v: ProjectVersion, major: bool, minor: bool, patch: bool) -> bool {
    &&& major || minor || patch
    &&& major ==> v.major < u64::MAX
    &&& !major && minor ==> v.minor < u64::MAX
    &&& !major && !minor && patch ==> v.patch < u64::MAX
}

impl ProjectVersion {
    /// The version published next, as `next_version` describes.
    pub fn bumped(&self, major: bool, minor: bool, patch: bool) -> (res: ProjectVersion)
        requires
            can_bump(*self, major, minor, patch),
        ensures
            res == next_version(*self, major, minor, patch),
    {
        if major {
            ProjectVersion { major: self.major + 1, minor: 0, patch: 0 }
        } else if minor {
            ProjectVersion { major: self.major, minor: self.minor + 1, patch: 0 }
        } else {
            ProjectVersion { major: self.major, minor: self.minor, patch: self.patch + 1 }
        }
    }

    /// The version as it is written in `cabin.toml`: `major.minor.patch`.
    pub fn to_text(&self) -> (res: String)
        ensures
            res@ == version_text_of(self.major, self.minor, self.patch),
    {
        semver_text(self.major, self.minor, self.patch)
    }
}

/// Every release makes a greater version: the bumped version comes after the old one when the
/// numbers are compared from major to patch.
pub proof fn law_bumped_version_is_greater(old: ProjectVersion, major: bool, minor: bool, patch: bool)
    requires
        can_bump(old, major, minor, patch),
    ensures
        ({
            let new = next_version(old, major, minor, patch);
            ||| old.major < new.major
            ||| old.major == new.major && old.minor < new.minor
            ||| old.major == new.major && old.minor == new.minor && old.patch < new.patch
        }),
{
}

} // verus!
