//! The kinds of perceptual hash and the settings that select one.

use vstd::prelude::*;
use vstd::string::*;
use crate::text::{owned, push_text, same_text};

verus! {

/// The hash algorithms.
#[derive(Debug, Clone, Copy, PartialEq, Eq, Structural)]
pub enum HashType {
    /// Each pixel of the reduced image against the mean of all of them.
    Mean,
    /// Each block of the full-size image against the mean of all blocks.
    Block,
    /// Each pixel against its right-hand neighbour.
    Gradient,
    /// `Gradient` over the rows, then over the columns.
    DoubleGradient,
    /// Each low-frequency coefficient of a cosine transform against their mean.
    DCT,
}

/// How two images are compared when their neighbours are collected.
#[derive(Debug, Clone, Copy, PartialEq, Eq, Structural)]
pub enum CompareMode {
    /// The given number of nearest images.
    KNearest(usize),
    /// All images within the given number of differing bits.
    MaxDist(u64),
}

impl Default for CompareMode {
    fn default() -> (mode: CompareMode)
        ensures
            mode == CompareMode::KNearest(5),
    {
        CompareMode::KNearest(5)
    }
}

/// The number of bits of a hash of kind `hash_type` made with `hash_size`.
pub open spec fn spec_bit_length(hash_size: nat, hash_type: HashType) -> nat {
    match hash_type {
        HashType::Mean => hash_size * hash_size,
        HashType::Gradient => hash_size * (hash_size - 1) as nat,
        HashType::DoubleGradient => 2 * (hash_size * (hash_size - 1) as nat),
        HashType::DCT => hash_size * hash_size,
        HashType::Block => hash_size * hash_size,
    }
}

/// The side of the square grayscale image that a kernel works on. `Block`
/// works on the image as it is and has no such side: zero.
pub open spec fn spec_target_side(hash_size: nat, hash_type: HashType) -> nat {
    match hash_type {
        HashType::Mean => hash_size,
        HashType::Gradient => hash_size,
        HashType::DoubleGradient => hash_size,
        HashType::DCT => 4 * hash_size,
        HashType::Block => 0,
    }
}

impl HashType {
    /// The name under which settings and reports give this kind.
    pub open spec fn spec_serialize_name(self) -> Seq<char> {
        match self {
            HashType::Mean => "mean"@,
            HashType::Block => "block"@,
            HashType::Gradient => "grad"@,
            HashType::DoubleGradient => "dblgrad"@,
            HashType::DCT => "dct"@,
        }
    }

    /// The kind that goes by the name `name`, if there is one.
    pub open spec fn spec_from_name(name: Seq<char>) -> Option<HashType> {
        if name == "mean"@ {
            Some(HashType::Mean)
        } else if name == "block"@ {
            Some(HashType::Block)
        } else if name == "grad"@ {
            Some(HashType::Gradient)
        } else if name == "dblgrad"@ {
            Some(HashType::DoubleGradient)
        } else if name == "dct"@ {
            Some(HashType::DCT)
        } else {
            None
        }
    }

    /// The name shown to a reader.
    pub fn display_name(&self) -> (name: &'static str)
        ensures
            name@ == match *self {
                HashType::Mean => "Mean"@,
                HashType::Block => "Blockhash.io"@,
                HashType::Gradient => "Gradient"@,
                HashType::DoubleGradient => "Double-Gradient"@,
                HashType::DCT => "DCT"@,
            },
    {
        match self {
            HashType::Mean => "Mean",
            HashType::Block => "Blockhash.io",
            HashType::Gradient => "Gradient",
            HashType::DoubleGradient => "Double-Gradient",
            HashType::DCT => "DCT",
        }
    }

    /// The name under which settings and reports give this kind.
    pub fn serialize_name(&self) -> (name: &'static str)
        ensures
            name@ == self.spec_serialize_name(),
    {
        match self {
            HashType::Mean => "mean",
            HashType::Block => "block",
            HashType::Gradient => "grad",
            HashType::DoubleGradient => "dblgrad",
            HashType::DCT => "dct",
        }
    }

    /// A few sentences on what the kind does and is good for.
    pub open spec fn spec_description(self) -> Seq<char> {
        match self {
            HashType::Mean =>
                "Averages the pixels of the reduced-size and color image, and then compares each pixel to the average.\nFast, but inaccurate. Really only useful for finding duplicates."@,
            HashType::Block =>
                "The Blockhash.io (http://blockhash.io) algorithm.\nFaster than `Mean` but also prone to more collisions and suitable only for finding duplicates. Does not require resizing or filtering the image."@,
            HashType::Gradient =>
                "Compares each pixel in a row to its neighbor and registers changes in gradients (e.g. edges and color boundaries).\nSlower and more accurate than `Mean` but much faster than `DCT`."@,
            HashType::DoubleGradient =>
                "A version of `Gradient` that adds an extra hash pass orthogonal to the first (i.e. on columns in addition to rows).\nSlower than `Gradient` and produces a double-sized hash, but much more accurate."@,
            HashType::DCT =>
                "Runs a Discrete Cosine Transform on the reduced-color and size image, then compares each datapoint in the transform to the average.\nSlowest by far, but can detect changes in color gamut and sometimes relatively significant edits."@,
        }
    }

    /// A few sentences on what the kind does and is good for.
    pub fn description(&self) -> (text: &'static str)
        ensures
            text@ == self.spec_description(),
    {
        match self {
            HashType::Mean =>
                "Averages the pixels of the reduced-size and color image, and then compares each pixel to the average.\nFast, but inaccurate. Really only useful for finding duplicates.",
            HashType::Block =>
                "The Blockhash.io (http://blockhash.io) algorithm.\nFaster than `Mean` but also prone to more collisions and suitable only for finding duplicates. Does not require resizing or filtering the image.",
            HashType::Gradient =>
                "Compares each pixel in a row to its neighbor and registers changes in gradients (e.g. edges and color boundaries).\nSlower and more accurate than `Mean` but much faster than `DCT`.",
            HashType::DoubleGradient =>
                "A version of `Gradient` that adds an extra hash pass orthogonal to the first (i.e. on columns in addition to rows).\nSlower than `Gradient` and produces a double-sized hash, but much more accurate.",
            HashType::DCT =>
                "Runs a Discrete Cosine Transform on the reduced-color and size image, then compares each datapoint in the transform to the average.\nSlowest by far, but can detect changes in color gamut and sometimes relatively significant edits.",
        }
    }

    /// The kind that goes by the name `name`.
    pub fn from_name(name: &str) -> (kind: Option<HashType>)
        ensures
            kind == HashType::spec_from_name(name@),
    {
        if same_text(name, "mean") {
            Some(HashType::Mean)
        } else if same_text(name, "block") {
            Some(HashType::Block)
        } else if same_text(name, "grad") {
            Some(HashType::Gradient)
        } else if same_text(name, "dblgrad") {
            Some(HashType::DoubleGradient)
        } else if same_text(name, "dct") {
            Some(HashType::DCT)
        } else {
            None
        }
    }

    /// The side of the square image that this kind wants for `hash_size`:
    /// `hash_size` itself, four times that for `DCT`, and zero for `Block`,
    /// which does not resize. `None` where the side does not fit.
    pub fn hash_size(&self, hash_size: u32) -> (side: Option<u32>)
        ensures
            side is Some <==> spec_target_side(hash_size as nat, *self) <= u32::MAX,
            side is Some ==> side->0 == spec_target_side(hash_size as nat, *self),
    {
        match self {
            HashType::Block => Some(0),
            HashType::DCT => {
                if hash_size > u32::MAX / 4 {
                    None
                } else {
                    Some(hash_size * 4)
                }
            },
            _ => Some(hash_size),
        }
    }
}

impl Default for HashType {
    fn default() -> (kind: HashType)
        ensures
            kind == HashType::Gradient,
    {
        HashType::Gradient
    }
}

/// All kinds, in the order in which they are listed to a reader.
pub fn hash_types() -> (all: Vec<HashType>)
    ensures
        all@ == seq![
            HashType::Mean,
            HashType::Block,
            HashType::Gradient,
            HashType::DoubleGradient,
            HashType::DCT,
        ],
{
    let mut all: Vec<HashType> = Vec::new();
    all.push(HashType::Mean);
    all.push(HashType::Block);
    all.push(HashType::Gradient);
    all.push(HashType::DoubleGradient);
    all.push(HashType::DCT);
    proof {
        assert(all@ =~= seq![
            HashType::Mean,
            HashType::Block,
            HashType::Gradient,
            HashType::DoubleGradient,
            HashType::DCT,
        ]);
    }
    all
}

/// What is said of a name that is no hash type: the name in double quotes,
/// then this.
pub open spec fn invalid_type_tail() -> Seq<char> {
    " is not a valid hash type; run `img-dup --list-hash-types` to list the currently supported hash types"@
}

/// The message for the name `name` that is no hash type.
pub open spec fn invalid_type_message(name: Seq<char>) -> Seq<char> {
    seq!['"'] + name + seq!['"'] + invalid_type_tail()
}

/// Checks that `hash_type` names a hash type; if not, says so in words.
pub fn validate_type(hash_type: String) -> (r: Result<(), String>)
    ensures
        r is Ok <==> HashType::spec_from_name(hash_type@) is Some,
        r is Err ==> r->Err_0@ == invalid_type_message(hash_type@),
{
    match HashType::from_name(hash_type.as_str()) {
        Some(_) => Ok(()),
        None => {
            let mut msg: String = owned("\"");
            proof {
                reveal_strlit("\"");
                assert("\""@ =~= seq!['"']);
            }
            push_text(&mut msg, hash_type.as_str());
            push_text(&mut msg, "\"");
            push_text(
                &mut msg,
                " is not a valid hash type; run `img-dup --list-hash-types` to list the currently supported hash types",
            );
            Err(msg)
        },
    }
}

/// Checks that `hash_type` names a hash type; if not, says so in words.
pub fn validate(hash_type: String) -> (r: Result<(), String>)
    ensures
        r is Ok <==> HashType::spec_from_name(hash_type@) is Some,
        r is Err ==> r->Err_0@ == invalid_type_message(hash_type@),
{
    validate_type(hash_type)
}

/// Which hash to compute: its kind, and the size that sets its bit length.
#[derive(Debug, Clone, Copy, PartialEq, Eq, Structural)]
pub struct HashSettings {
    pub hash_size: u32,
    pub hash_type: HashType,
}

impl Default for HashSettings {
    fn default() -> (settings: HashSettings)
        ensures
            settings == (HashSettings { hash_size: 8, hash_type: HashType::Gradient }),
    {
        HashSettings { hash_size: 8, hash_type: HashType::Gradient }
    }
}

impl HashSettings {
    /// Settings for hashes of kind `hash_type` with the positive size
    /// `hash_size`; no settings for size zero.
    pub fn new(hash_size: u32, hash_type: HashType) -> (settings: Option<HashSettings>)
        ensures
            settings is Some <==> hash_size > 0,
            settings is Some ==> settings->0 == (HashSettings { hash_size, hash_type }),
    {
        if hash_size == 0 {
            None
        } else {
            Some(HashSettings { hash_size, hash_type })
        }
    }

    /// The number of bits of every hash made with these settings.
    pub open spec fn spec_bit_length(self) -> nat {
        spec_bit_length(self.hash_size as nat, self.hash_type)
    }

    /// The number of bits of every hash made with these settings, where a
    /// vector can have that many elements.
    pub fn bit_length(&self) -> (bits: Option<usize>)
        ensures
            bits is Some <==> self.spec_bit_length() <= usize::MAX,
            bits is Some ==> bits->0 == self.spec_bit_length(),
    {
        let n: u128 = self.hash_size as u128;
        proof {
            assert(n * n <= 0xffff_ffff * 0xffff_ffff) by (nonlinear_arith)
                requires
                    n <= 0xffff_ffff,
            ;
        }
        let wide: u128 = match self.hash_type {
            HashType::Mean | HashType::DCT | HashType::Block => n * n,
            HashType::Gradient => {
                if n == 0 {
                    0
                } else {
                    proof {
                        assert(n * (n - 1) <= n * n) by (nonlinear_arith)
                            requires
                                n >= 1,
                        ;
                    }
                    n * (n - 1)
                }
            },
            HashType::DoubleGradient => {
                if n == 0 {
                    0
                } else {
                    proof {
                        assert(n * (n - 1) <= n * n) by (nonlinear_arith)
                            requires
                                n >= 1,
                        ;
                    }
                    2 * (n * (n - 1))
                }
            },
        };
        if wide <= usize::MAX as u128 {
            Some(wide as usize)
        } else {
            None
        }
    }

    /// Whether hashing with these settings needs the cosine table, which is
    /// computed once per size before the first task of a run.
    pub fn needs_cosine_table(&self) -> (needed: bool)
        ensures
            needed == (self.hash_type == HashType::DCT),
    {
        match self.hash_type {
            HashType::DCT => true,
            _ => false,
        }
    }
}

} // verus!
