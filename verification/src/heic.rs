//! Checks made before a light/dark dynamic HEIC is generated from two images.
use vstd::prelude::*;

use crate::fs_path::{compare_paths, extension, extension_of, path_eq};
use crate::interactive::{is_supported_image, is_supported_image_spec};
use crate::text::{ascii_lowercase, ascii_lowercase_chars, chars_of, str_eq, string_of};

verus! {

/// What a light/dark HEIC is made from and written to.
pub struct LightDarkHeicSpec {
    pub light: String,
    pub dark: String,
    pub output: String,
    pub force: bool,
}

/// The files of a generated light/dark HEIC.
pub struct HeicReport {
    pub light: String,
    pub dark: String,
    pub output: String,
}

/// What the file system says about the files of a HEIC request.
pub struct HeicFacts {
    pub light_is_file: bool,
    pub dark_is_file: bool,
    pub output_exists: bool,
}

/// Why a HEIC request was refused.
#[derive(Debug)]
pub enum HeicError {
    /// An input image is missing (`label` is `light` or `dark`).
    MissingInput { label: String, path: String },
    /// An input image has an extension that cannot be read.
    UnsupportedExtension { label: String, extension: String, path: String },
    /// Light and dark name the same file.
    SamePaths,
    /// The output exists and replacing it was not asked for.
    OutputExists { path: String },
    /// The output does not end in `.heic`.
    OutputNotHeic { path: String },
}

/// Mathematical form of [`HeicError`].
pub enum HeicFault {
    MissingInput(Seq<char>, Seq<char>),
    UnsupportedExtension(Seq<char>, Seq<char>, Seq<char>),
    SamePaths,
    OutputExists(Seq<char>),
    OutputNotHeic(Seq<char>),
}

impl View for HeicError {
    type V = HeicFault;

    open spec fn view(&self) -> HeicFault {
        match self {
            HeicError::MissingInput { label, path } => HeicFault::MissingInput(label@, path@),
            HeicError::UnsupportedExtension { label, extension, path } =>
                HeicFault::UnsupportedExtension(label@, extension@, path@),
            HeicError::SamePaths => HeicFault::SamePaths,
            HeicError::OutputExists { path } => HeicFault::OutputExists(path@),
            HeicError::OutputNotHeic { path } => HeicFault::OutputNotHeic(path@),
        }
    }
}

/// The extension of a path in lower case, empty when it has none.
pub open spec fn lower_extension(path: Seq<char>) -> Seq<char> {
    ascii_lowercase(
        match extension(path) {
            Some(e) => e,
            None => Seq::empty(),
        },
    )
}

/// An input image must be a file with a readable image extension.
pub open spec fn input_check(label: Seq<char>, path: Seq<char>, is_file: bool) -> Option<HeicFault> {
    if !is_file {
        Some(HeicFault::MissingInput(label, path))
    } else if !is_supported_image_spec(path) {
        Some(HeicFault::UnsupportedExtension(label, lower_extension(path), path))
    } else {
        None
    }
}

/// Checks an input image (see [`input_check`]).
pub fn validate_input_image(label: &str, path: &str, is_file: bool) -> (r: Result<(), HeicError>)
    ensures
        match r {
            Ok(()) => input_check(label@, path@, is_file) is None,
            Err(e) => input_check(label@, path@, is_file) == Some(e@),
        },
{
    if !is_file {
        return Err(
            HeicError::MissingInput {
                label: crate::config::string_of_str(label),
                path: crate::config::string_of_str(path),
            },
        );
    }
    if !is_supported_image(path) {
        let e = match extension_of(&chars_of(path)) {
            Some(e) => e,
            None => Vec::new(),
        };
        let lower = string_of(ascii_lowercase_chars(&e).as_slice());
        return Err(
            HeicError::UnsupportedExtension {
                label: crate::config::string_of_str(label),
                extension: lower,
                path: crate::config::string_of_str(path),
            },
        );
    }
    Ok(())
}

/// The first reason to refuse a request: the light image, the dark image, the two being
/// the same path, an existing output without `force`, an output not ending in `.heic`.
pub open spec fn request_check(s: LightDarkHeicSpec, facts: HeicFacts) -> Option<HeicFault> {
    match input_check("light"@, s.light@, facts.light_is_file) {
        Some(f) => Some(f),
        None => match input_check("dark"@, s.dark@, facts.dark_is_file) {
            Some(f) => Some(f),
            None => if path_eq(s.light@, s.dark@) {
                Some(HeicFault::SamePaths)
            } else if facts.output_exists && !s.force {
                Some(HeicFault::OutputExists(s.output@))
            } else if extension(s.output@) != Some("heic"@) {
                Some(HeicFault::OutputNotHeic(s.output@))
            } else {
                None
            },
        },
    }
}

impl LightDarkHeicSpec {
    /// Checks the request against what the file system says (see [`request_check`]).
    pub fn validate(&self, facts: &HeicFacts) -> (r: Result<(), HeicError>)
        ensures
            match r {
                Ok(()) => request_check(*self, *facts) is None,
                Err(e) => request_check(*self, *facts) == Some(e@),
            },
    {
        validate_input_image("light", self.light.as_str(), facts.light_is_file)?;
        validate_input_image("dark", self.dark.as_str(), facts.dark_is_file)?;
        if compare_paths(self.light.as_str(), self.dark.as_str()) == 0 {
            return Err(HeicError::SamePaths);
        }
        if facts.output_exists && !self.force {
            return Err(HeicError::OutputExists { path: self.output.clone() });
        }
        let is_heic = match extension_of(&chars_of(self.output.as_str())) {
            Some(e) => str_eq(string_of(e.as_slice()).as_str(), "heic"),
            None => false,
        };
        if !is_heic {
            return Err(HeicError::OutputNotHeic { path: self.output.clone() });
        }
        Ok(())
    }
}

} // verus!
