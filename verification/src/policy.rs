use vstd::prelude::*;

verus! {

/// The configuration of one enumeration call: five boolean inclusion flags
/// plus the separator token inserted between path segments of nested names.
///
/// No invariant constrains the flags; all combinations are legal. The
/// separator is caller-chosen and need not be an OS path separator.
///
/// The filtering rules are type-specific about hidden entries: a hidden
/// directory is skipped entirely (no output, no recursion) unless
/// `include_dotfiles` is set, while a hidden non-directory entry forms a
/// dotfile category of its own, admitted by `include_dotfiles` regardless of
/// `include_files`. A symlink is admitted by `include_symlinks` alone, hidden
/// or not. See [`crate::scan`] for the precise rules.
pub struct ScanPolicy {
    /// Descend into subdirectories.
    pub recursive: bool,
    /// Include entries whose name starts with `.`.
    pub include_dotfiles: bool,
    /// Include directory entries themselves (independent of recursing into them).
    pub include_directories: bool,
    /// Include entries reported as symbolic links.
    pub include_symlinks: bool,
    /// Include entries reported as regular files.
    pub include_files: bool,
    /// Token joining path segments of nested relative names.
    pub separator: String,
}

impl ScanPolicy {
    /// All five inclusion flags are set.
    pub open spec fn full_inclusion(self) -> bool {
        &&& self.recursive
        &&& self.include_dotfiles
        &&& self.include_directories
        &&& self.include_symlinks
        &&& self.include_files
    }

    /// The two policies agree on every flag; the separators may differ.
    pub open spec fn same_flags(self, other: ScanPolicy) -> bool {
        &&& self.recursive == other.recursive
        &&& self.include_dotfiles == other.include_dotfiles
        &&& self.include_directories == other.include_directories
        &&& self.include_symlinks == other.include_symlinks
        &&& self.include_files == other.include_files
    }
}

} // verus!
