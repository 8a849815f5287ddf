//! Checks on what a run is given, made before any work is done.

use vstd::prelude::*;
use vstd::string::*;
use crate::error::FfbeError;
use crate::text::{decimal, push_decimal};

verus! {

/// The path of the sprite atlas of a unit.
pub open spec fn atlas_path_text(input_dir: Seq<char>, uid: u32) -> Seq<char> {
    input_dir + "/unit_anime_"@ + decimal(uid as nat) + ".png"@
}

/// The path of the part-geometry table of a unit.
pub open spec fn cgg_path_text(input_dir: Seq<char>, uid: u32) -> Seq<char> {
    input_dir + "/unit_cgg_"@ + decimal(uid as nat) + ".csv"@
}

/// The path of the frame-sequence table of one animation of a unit.
pub open spec fn cgs_path_text(input_dir: Seq<char>, anim_name: Seq<char>, uid: u32) -> Seq<char> {
    input_dir + "/unit_"@ + anim_name + "_cgs_"@ + decimal(uid as nat) + ".csv"@
}

/// The path of the sprite atlas of unit `uid` under `input_dir`.
pub fn atlas_path(input_dir: &str, uid: u32) -> (path: String)
    ensures
        path@ == atlas_path_text(input_dir@, uid),
{
    let mut path = String::from_str(input_dir);
    path.append("/unit_anime_");
    push_decimal(&mut path, uid as u128);
    path.append(".png");
    path
}

/// The path of the part-geometry table of unit `uid` under `input_dir`.
pub fn cgg_path(input_dir: &str, uid: u32) -> (path: String)
    ensures
        path@ == cgg_path_text(input_dir@, uid),
{
    let mut path = String::from_str(input_dir);
    path.append("/unit_cgg_");
    push_decimal(&mut path, uid as u128);
    path.append(".csv");
    path
}

/// The path of the frame-sequence table of the animation `anim_name` of
/// unit `uid` under `input_dir`.
pub fn cgs_path(input_dir: &str, anim_name: &str, uid: u32) -> (path: String)
    ensures
        path@ == cgs_path_text(input_dir@, anim_name@, uid),
{
    let mut path = String::from_str(input_dir);
    path.append("/unit_");
    path.append(anim_name);
    path.append("_cgs_");
    push_decimal(&mut path, uid as u128);
    path.append(".csv");
    path
}

/// Which of the things that a run reads are there.
#[derive(Clone, Copy, Debug, PartialEq, Eq, Structural)]
pub struct Present {
    /// The input directory.
    pub input_dir: bool,
    /// The sprite atlas, at `atlas_path`.
    pub atlas: bool,
    /// The part-geometry table, at `cgg_path`.
    pub cgg: bool,
    /// The frame-sequence table of the animation asked for, at `cgs_path`.
    /// Not looked at where no animation is named.
    pub cgs: bool,
}

/// The first thing that is wrong with the inputs of a run, if anything is.
pub enum InputFault {
    ZeroUid,
    /// Something is not there: the text names it.
    Missing(Seq<char>),
}

/// What is wrong with the inputs, looked at in a fixed order: the unit
/// number, the input directory, the atlas, the part-geometry table and,
/// where an animation is named, its frame-sequence table.
pub open spec fn input_fault(
    uid: u32,
    input_dir: Seq<char>,
    anim_name: Option<Seq<char>>,
    present: Present,
) -> Option<InputFault> {
    if uid == 0 {
        Some(InputFault::ZeroUid)
    } else if !present.input_dir {
        Some(InputFault::Missing("Input directory '"@ + input_dir + "'"@))
    } else if !present.atlas {
        Some(InputFault::Missing(atlas_path_text(input_dir, uid)))
    } else if !present.cgg {
        Some(InputFault::Missing(cgg_path_text(input_dir, uid)))
    } else if anim_name is Some && !present.cgs {
        Some(InputFault::Missing(cgs_path_text(input_dir, anim_name.unwrap(), uid)))
    } else {
        None
    }
}

/// The name of an animation, if one is given, as characters.
pub open spec fn name_text(anim_name: Option<&str>) -> Option<Seq<char>> {
    match anim_name {
        Some(name) => Some(name@),
        None => None,
    }
}

/// Checks the inputs of a run, given which of them are there.
pub fn validate_input_args(
    uid: u32,
    input_dir: &str,
    anim_name: Option<&str>,
    present: &Present,
) -> (res: Result<(), FfbeError>)
    ensures
        match input_fault(uid, input_dir@, name_text(anim_name), *present) {
            None => res is Ok,
            Some(InputFault::ZeroUid) => res matches Err(FfbeError::InvalidInput(m)) && m@
                == "Unit ID must be greater than 0"@,
            Some(InputFault::Missing(what)) => res matches Err(FfbeError::FileNotFound(m)) && m@
                == what,
        },
{
    if uid == 0 {
        return Err(FfbeError::InvalidInput(String::from_str("Unit ID must be greater than 0")));
    }
    if !present.input_dir {
        let mut m = String::from_str("Input directory '");
        m.append(input_dir);
        m.append("'");
        return Err(FfbeError::FileNotFound(m));
    }
    if !present.atlas {
        return Err(FfbeError::FileNotFound(atlas_path(input_dir, uid)));
    }
    if !present.cgg {
        return Err(FfbeError::FileNotFound(cgg_path(input_dir, uid)));
    }
    if let Some(anim) = anim_name {
        if !present.cgs {
            return Err(FfbeError::FileNotFound(cgs_path(input_dir, anim, uid)));
        }
    }
    Ok(())
}

/// The report for an output path that is not a directory.
pub open spec fn not_a_directory_text(output_dir: Seq<char>) -> Seq<char> {
    "Output path '"@ + output_dir + "' is not a directory"@
}

/// Checks the output path of a run, given whether it is a directory once
/// it has been created where it was missing.
pub fn validate_output_dir(output_dir: &str, is_dir: bool) -> (res: Result<(), FfbeError>)
    ensures
        is_dir ==> res is Ok,
        !is_dir ==> (res matches Err(FfbeError::InvalidInput(m)) && m@ == not_a_directory_text(
            output_dir@,
        )),
{
    if !is_dir {
        let mut m = String::from_str("Output path '");
        m.append(output_dir);
        m.append("' is not a directory");
        return Err(FfbeError::InvalidInput(m));
    }
    Ok(())
}

} // verus!
