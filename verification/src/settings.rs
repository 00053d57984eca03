//! From the values of the command-line options to the settings of a run.

use vstd::prelude::*;
use vstd::string::*;
use crate::args::{parse_u64, spec_parse_u64};
use crate::hash::{CompareMode, HashSettings, HashType};
use crate::report::SerializeSettings;
use crate::search::{default_exts, lower, lowercase, SearchSettings};
use crate::text::owned;

verus! {

/// The options of the command line as they were given, each value still
/// the text that was typed.
#[derive(Debug)]
pub struct ArgValues {
    pub threads: Option<String>,
    pub exts: Vec<String>,
    pub no_default_exts: bool,
    pub recursive: bool,
    pub outfile: Option<String>,
    pub hash_size: Option<String>,
    pub hash_type: Option<String>,
    pub k_nearest: Option<String>,
    pub distance: Option<String>,
    pub pretty_indent: Option<String>,
    pub directory: Option<String>,
}

/// Which option was given wrongly.
#[derive(Debug, Clone, Copy, PartialEq, Eq, Structural)]
pub enum ArgError {
    /// `--threads` is not an integer greater than zero.
    Threads,
    /// `--hash-size` is not an integer greater than zero.
    HashSize,
    /// `--hash-type` names no hash type.
    HashType,
    /// `--k-nearest` and `--distance` were both given.
    Conflict,
    /// `--k-nearest` is not an integer.
    KNearest,
    /// `--distance` is not an integer.
    Distance,
    /// `--pretty-indent` is not an integer greater than zero.
    PrettyIndent,
    /// `--no-default-exts` was given without any `--ext`.
    NoExtensions,
}

/// The settings of a run.
#[derive(Debug)]
pub struct AppSettings {
    pub search: SearchSettings,
    pub hash: HashSettings,
    pub serialize: SerializeSettings,
    /// The number of worker threads; one for each processor where `None`.
    pub threads: Option<usize>,
    pub compare_type: CompareMode,
}

/// The exit code of the program after an argument error.
pub const EXIT_ARGUMENT_ERROR: u8 = 2;

/// The exit code of the program after a fatal I/O error.
pub const EXIT_FATAL_IO: u8 = 1;

/// The exit code of the program after a run, whether or not single files
/// failed.
pub const EXIT_SUCCESS: u8 = 0;

/// `text` is an integer from `least` to `most`.
pub open spec fn in_range(text: Seq<char>, least: u64, most: u64) -> bool {
    spec_parse_u64(text) is Some && least <= spec_parse_u64(text)->0 <= most
}

/// An option that was given holds an integer from `least` to `most`.
pub open spec fn acceptable(text: Option<String>, least: u64, most: u64) -> bool {
    text is Some ==> in_range(text->0@, least, most)
}

/// The first thing wrong with `args`, if anything is.
pub open spec fn first_error(args: ArgValues) -> Option<ArgError> {
    if !acceptable(args.threads, 1, usize::MAX as u64) {
        Some(ArgError::Threads)
    } else if !acceptable(args.hash_size, 1, u32::MAX as u64) {
        Some(ArgError::HashSize)
    } else if args.hash_type is Some && HashType::spec_from_name(args.hash_type->0@) is None {
        Some(ArgError::HashType)
    } else if args.k_nearest is Some && args.distance is Some {
        Some(ArgError::Conflict)
    } else if !acceptable(args.k_nearest, 0, usize::MAX as u64) {
        Some(ArgError::KNearest)
    } else if !acceptable(args.distance, 0, u64::MAX) {
        Some(ArgError::Distance)
    } else if !acceptable(args.pretty_indent, 1, usize::MAX as u64) {
        Some(ArgError::PrettyIndent)
    } else if args.no_default_exts && args.exts@.len() == 0 {
        Some(ArgError::NoExtensions)
    } else {
        None
    }
}

/// The number that an option holds, or `default` where it was not given.
pub open spec fn value_or(text: Option<String>, default: u64) -> u64 {
    match text {
        Some(t) => spec_parse_u64(t@)->0,
        None => default,
    }
}

/// How images are compared by `args`: the five nearest where nothing is
/// said.
pub open spec fn spec_compare(args: ArgValues) -> CompareMode {
    if args.distance is Some {
        CompareMode::MaxDist(value_or(args.distance, 0))
    } else {
        CompareMode::KNearest(value_or(args.k_nearest, 5) as usize)
    }
}

/// `exts` are the extensions that a search by `args` looks for: the
/// default ones unless they are turned off, then the given ones in lower
/// case.
pub open spec fn is_exts_of(exts: Seq<String>, args: ArgValues) -> bool {
    let base: int = if args.no_default_exts {
        0
    } else {
        3
    };
    &&& exts.len() == base + args.exts@.len()
    &&& !args.no_default_exts ==> exts[0]@ == "jpg"@ && exts[1]@ == "png"@ && exts[2]@ == "gif"@
    &&& forall|i: int|
        0 <= i < args.exts@.len() ==> (#[trigger] exts[base + i])@.len() == args.exts@[i]@.len()
            && forall|j: int|
            0 <= j < args.exts@[i]@.len() ==> exts[base + i]@[j] == lower(args.exts@[i]@[j])
}

/// Reads the number in `text`, which must lie from `least` to `most`.
fn number_in(text: &Option<String>, least: u64, most: u64) -> (r: Result<Option<u64>, ()>)
    ensures
        r is Ok <==> acceptable(*text, least, most),
        r is Ok ==> (r->Ok_0 is Some <==> *text is Some),
        r is Ok && *text is Some ==> r->Ok_0->0 == spec_parse_u64(text->0@)->0,
{
    match text {
        None => Ok(None),
        Some(t) => {
            match parse_u64(t.as_str()) {
                Some(v) => {
                    if least <= v && v <= most {
                        Ok(Some(v))
                    } else {
                        Err(())
                    }
                },
                None => Err(()),
            }
        },
    }
}

/// The settings that the options `args` ask for, or the first option that
/// was given wrongly. What is not given takes its default: the current
/// directory, the extensions `jpg`, `png` and `gif`, hash size 8, hash
/// type `grad`, the five nearest, and the report in `img-dup.json`.
pub fn args_to_settings(args: ArgValues) -> (r: Result<AppSettings, ArgError>)
    ensures
        r is Err <==> first_error(args) is Some,
        r is Err ==> Some(r->Err_0) == first_error(args),
        r is Ok ==> {
            let s = r->Ok_0;
            &&& s.threads is Some <==> args.threads is Some
            &&& args.threads is Some ==> s.threads->0 == value_or(args.threads, 0)
            &&& s.hash.hash_size == value_or(args.hash_size, 8)
            &&& s.hash.hash_type == if args.hash_type is Some {
                HashType::spec_from_name(args.hash_type->0@)->0
            } else {
                HashType::Gradient
            }
            &&& s.compare_type == spec_compare(args)
            &&& s.serialize.pretty_indent is Some <==> args.pretty_indent is Some
            &&& args.pretty_indent is Some ==> s.serialize.pretty_indent->0 == value_or(
                args.pretty_indent,
                0,
            )
            &&& s.serialize.outfile@ == if args.outfile is Some {
                args.outfile->0@
            } else {
                "img-dup.json"@
            }
            &&& s.search.dir@ == if args.directory is Some {
                args.directory->0@
            } else {
                "."@
            }
            &&& s.search.recursive == args.recursive
            &&& is_exts_of(s.search.exts@, args)
        },
{
    let threads: Option<usize> = match number_in(&args.threads, 1, usize::MAX as u64) {
        Ok(Some(v)) => Some(v as usize),
        Ok(None) => None,
        Err(_) => {
            return Err(ArgError::Threads);
        },
    };
    let hash_size: u32 = match number_in(&args.hash_size, 1, u32::MAX as u64) {
        Ok(Some(v)) => v as u32,
        Ok(None) => 8,
        Err(_) => {
            return Err(ArgError::HashSize);
        },
    };
    let hash_type: HashType = match &args.hash_type {
        Some(name) => {
            match HashType::from_name(name.as_str()) {
                Some(kind) => kind,
                None => {
                    return Err(ArgError::HashType);
                },
            }
        },
        None => HashType::Gradient,
    };
    if args.k_nearest.is_some() && args.distance.is_some() {
        return Err(ArgError::Conflict);
    }
    let k_nearest: Option<u64> = match number_in(&args.k_nearest, 0, usize::MAX as u64) {
        Ok(v) => v,
        Err(_) => {
            return Err(ArgError::KNearest);
        },
    };
    let distance: Option<u64> = match number_in(&args.distance, 0, u64::MAX) {
        Ok(v) => v,
        Err(_) => {
            return Err(ArgError::Distance);
        },
    };
    let pretty_indent: Option<usize> = match number_in(&args.pretty_indent, 1, usize::MAX as u64) {
        Ok(Some(v)) => Some(v as usize),
        Ok(None) => None,
        Err(_) => {
            return Err(ArgError::PrettyIndent);
        },
    };
    if args.no_default_exts && args.exts.len() == 0 {
        return Err(ArgError::NoExtensions);
    }
    let compare_type: CompareMode = match distance {
        Some(d) => CompareMode::MaxDist(d),
        None => match k_nearest {
            Some(k) => CompareMode::KNearest(k as usize),
            None => CompareMode::KNearest(5),
        },
    };
    let mut exts: Vec<String> = if args.no_default_exts {
        Vec::new()
    } else {
        default_exts()
    };
    let ghost base: int = exts@.len() as int;
    let mut i: usize = 0;
    while i < args.exts.len()
        invariant
            i <= args.exts@.len(),
            base == if args.no_default_exts {
                0int
            } else {
                3int
            },
            exts@.len() == base + i,
            !args.no_default_exts ==> exts@[0]@ == "jpg"@ && exts@[1]@ == "png"@ && exts@[2]@
                == "gif"@,
            forall|k: int|
                0 <= k < i ==> (#[trigger] exts@[base + k])@.len() == args.exts@[k]@.len()
                    && forall|j: int|
                    0 <= j < args.exts@[k]@.len() ==> exts@[base + k]@[j] == lower(
                        args.exts@[k]@[j],
                    ),
        decreases args.exts@.len() - i,
    {
        let low = lowercase(args.exts[i].as_str());
        exts.push(low);
        i = i + 1;
    }
    let outfile: String = match args.outfile {
        Some(path) => path,
        None => owned("img-dup.json"),
    };
    let dir: String = match args.directory {
        Some(path) => path,
        None => owned("."),
    };
    Ok(
        AppSettings {
            search: SearchSettings { dir, recursive: args.recursive, exts },
            hash: HashSettings { hash_size, hash_type },
            serialize: SerializeSettings { outfile, pretty_indent },
            threads,
            compare_type,
        },
    )
}

} // verus!
