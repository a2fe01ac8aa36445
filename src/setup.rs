//! The checks made on the source and target directories before any file is
//! touched.

use vstd::prelude::*;

verus! {

/// Why a run is refused before it starts.
#[derive(Clone, Copy, Debug, PartialEq, Eq, Structural)]
pub enum SetupError {
    /// The source is missing or is not a directory.
    InvalidSource,
    /// The source directory holds nothing.
    BlankSource,
    /// The target directory exists and already holds something.
    TargetNotBlank,
    /// The target directory could not be created.
    TargetNotCreated,
}

/// What to do with the target directory once the checks pass.
#[derive(Clone, Copy, Debug, PartialEq, Eq, Structural)]
pub enum TargetAction {
    /// It exists and is empty: use it as it is.
    UseExisting,
    /// It does not exist: create it, with any missing ancestors.
    Create,
}

/// What the checks decide from what was observed of the two directories.
pub open spec fn setup_decision(
    source_is_dir: bool,
    source_is_blank: bool,
    target_exists: bool,
    target_is_blank: bool,
) -> Result<TargetAction, SetupError> {
    if !source_is_dir {
        Err(SetupError::InvalidSource)
    } else if source_is_blank {
        Err(SetupError::BlankSource)
    } else if target_exists && !target_is_blank {
        Err(SetupError::TargetNotBlank)
    } else if target_exists {
        Ok(TargetAction::UseExisting)
    } else {
        Ok(TargetAction::Create)
    }
}

/// Decides whether a run may start: the source must be an existing,
/// non-empty directory, and the target must be empty or absent.
pub fn check_setup(
    source_is_dir: bool,
    source_is_blank: bool,
    target_exists: bool,
    target_is_blank: bool,
) -> (r: Result<TargetAction, SetupError>)
    ensures
        r == setup_decision(source_is_dir, source_is_blank, target_exists, target_is_blank),
{
    if !source_is_dir {
        Err(SetupError::InvalidSource)
    } else if source_is_blank {
        Err(SetupError::BlankSource)
    } else if target_exists && !target_is_blank {
        Err(SetupError::TargetNotBlank)
    } else if target_exists {
        Ok(TargetAction::UseExisting)
    } else {
        Ok(TargetAction::Create)
    }
}

/// A target that exists and holds something is always refused, whatever
/// the source is, so no file is copied into it.
pub proof fn lemma_non_blank_target_refused(
    source_is_dir: bool,
    source_is_blank: bool,
    target_is_blank: bool,
)
    requires
        !target_is_blank,
    ensures
        setup_decision(source_is_dir, source_is_blank, true, target_is_blank) is Err,
{
}

} // verus!
