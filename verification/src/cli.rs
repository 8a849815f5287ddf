//! What a run is asked to do: which unit, which animation, which outputs.

use vstd::prelude::*;
use vstd::string::*;
use crate::cgg::FrameParts;
use crate::text::{chars_of, parse_u32, read_u32, Span};
use crate::unit::Unit;

verus! {

/// How a unit is named on the command line: by its number or by the name
/// of its character.
#[derive(Clone, Debug)]
pub enum UnitIdentifier {
    Id(u32),
    Name(String),
}

impl UnitIdentifier {
    /// Reads `s` as a unit number where it is one, and as a name otherwise.
    pub fn parse(s: &str) -> (out: UnitIdentifier)
        ensures
            match parse_u32(s@) {
                Some(id) => out == UnitIdentifier::Id(id),
                None => out matches UnitIdentifier::Name(name) && name@ == s@,
            },
    {
        let chars = chars_of(s);
        let whole = Span { start: 0, end: chars.len() };
        proof {
            assert(whole.of(chars@) =~= s@);
        }
        match read_u32(&chars, whole) {
            Some(id) => UnitIdentifier::Id(id),
            None => UnitIdentifier::Name(String::from_str(s)),
        }
    }
}

impl std::str::FromStr for UnitIdentifier {
    type Err = std::convert::Infallible;

    /// Reading never fails: what is not a unit number is a name.
    fn from_str(s: &str) -> (out: Result<Self, Self::Err>)
        ensures
            match parse_u32(s@) {
                Some(id) => out matches Ok(UnitIdentifier::Id(n)) && n == id,
                None => out matches Ok(UnitIdentifier::Name(name)) && name@ == s@,
            },
    {
        Ok(UnitIdentifier::parse(s))
    }
}

/// The kind of animated file to write beside the sprite sheet.
#[derive(Clone, Copy, Debug, PartialEq, Eq, Structural)]
pub enum AnimFileType {
    Gif,
    Apng,
    /// No animated file at all.
    NoFile,
}

impl AnimFileType {
    /// The kind of animated file called `value`: `apng` or `gif`; any
    /// other word stands for none.
    pub fn from_name(value: &str) -> (out: AnimFileType)
        ensures
            out == (if value@ == "apng"@ {
                AnimFileType::Apng
            } else if value@ == "gif"@ {
                AnimFileType::Gif
            } else {
                AnimFileType::NoFile
            }),
    {
        let word = String::from_str(value);
        if word == String::from_str("apng") {
            AnimFileType::Apng
        } else if word == String::from_str("gif") {
            AnimFileType::Gif
        } else {
            AnimFileType::NoFile
        }
    }
}

/// The arguments of a run.
#[derive(Clone, Debug)]
pub struct Args {
    pub uid: UnitIdentifier,
    pub anim: Option<String>,
    pub columns: usize,
    pub include_empty: bool,
    pub verbose: bool,
    pub save_json: bool,
    pub save_gif: bool,
    pub save_apng: bool,
    pub input_dir: String,
    pub output_dir: String,
}

/// The kind of animated file that `args` asks for. Where both kinds are
/// asked for, the GIF wins.
pub fn determine_animation_file_type(args: &Args) -> (out: AnimFileType)
    ensures
        out == (if args.save_gif {
            AnimFileType::Gif
        } else if args.save_apng {
            AnimFileType::Apng
        } else {
            AnimFileType::NoFile
        }),
{
    if args.save_gif {
        AnimFileType::Gif
    } else if args.save_apng {
        AnimFileType::Apng
    } else {
        AnimFileType::NoFile
    }
}

/// A unit with the given frame templates and no bounds yet.
pub fn create_unit(unit_id: u32, frames: Vec<FrameParts>) -> (unit: Unit)
    ensures
        unit == (Unit {
            id: unit_id,
            frames,
            top_left: None,
            bottom_right: None,
            width: None,
            height: None,
            x_offset: None,
            y_offset: None,
        }),
{
    Unit {
        id: unit_id,
        frames,
        top_left: None,
        bottom_right: None,
        width: None,
        height: None,
        x_offset: None,
        y_offset: None,
    }
}

} // verus!
