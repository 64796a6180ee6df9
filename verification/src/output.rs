//! Output options and the write-plan decision: whether a save to a given
//! target may proceed, given what exists on disk and what the user allowed.
//! The caller performs the actual write atomically (temporary file, then
//! rename) so a failure never leaves a partial destination file.

use vstd::prelude::*;

use crate::render::FormatInfo;

verus! {

/// How the rendered links are written out.
pub struct OutputOptions {
    pub format: FormatInfo,
    pub overwrite: bool,
    pub create_folder: bool,
}

/// How a file write can fail.
#[derive(Clone, Copy, Debug, PartialEq, Eq, Structural)]
pub enum IoError {
    /// The input file was not found.
    NotFound,
    /// The target exists and overwriting was not allowed.
    AlreadyExists,
    /// The target's parent directory is absent and creating it was not
    /// allowed.
    MissingParent,
    /// The operating system refused access.
    Permission,
    /// Any other input/output failure.
    Other,
}

/// What `plan_write` decides.
pub open spec fn spec_plan_write(
    target_exists: bool,
    parent_exists: bool,
    overwrite: bool,
    create_folder: bool,
) -> Result<(), IoError> {
    if target_exists && !overwrite {
        Err(IoError::AlreadyExists)
    } else if !parent_exists && !create_folder {
        Err(IoError::MissingParent)
    } else {
        Ok(())
    }
}

/// Decides whether a save may proceed. `AlreadyExists` exactly when the
/// target exists and `overwrite` is off (the existing file is then left
/// untouched); `MissingParent` exactly when the parent directory is absent
/// and `create_folder` is off; otherwise the write may go ahead, creating
/// the parent as needed.
pub fn plan_write(target_exists: bool, parent_exists: bool, options: &OutputOptions) -> (r: Result<
    (),
    IoError,
>)
    ensures
        r == spec_plan_write(target_exists, parent_exists, options.overwrite, options.create_folder),
        r == Err::<(), IoError>(IoError::AlreadyExists) <==> target_exists && !options.overwrite,
        r == Err::<(), IoError>(IoError::MissingParent) <==> !(target_exists && !options.overwrite)
            && !parent_exists && !options.create_folder,
{
    if target_exists && !options.overwrite {
        Err(IoError::AlreadyExists)
    } else if !parent_exists && !options.create_folder {
        Err(IoError::MissingParent)
    } else {
        Ok(())
    }
}

} // verus!
