//! Why a package could not be patched.

use vstd::prelude::*;
use vstd::string::StringExecFns;
use crate::outside::text::{lossy_text, utf8_lossy};

verus! {

/// The step of the patch in which the input was refused.
#[derive(Clone, Copy, PartialEq, Eq, Debug, Structural)]
pub enum PatchStage {
    /// Reading the members of the package.
    OuterDecode,
    /// Decompressing the payload.
    Decompress,
    /// Reading the entries of the payload and writing them again.
    Payload,
    /// Compressing the new payload.
    Compress,
    /// Writing the members of the package.
    OuterEncode,
}

/// A failed patch. Every one of them is final: nothing is written.
#[derive(Clone, PartialEq, Eq, Debug)]
pub enum PatchError {
    /// No member of the package is a payload.
    MissingPayload,
    /// The payload's name ends in neither suffix that stands for a codec; the
    /// name is held.
    UnsupportedFormat(Vec<u8>),
    /// A symlink was asked for at a path that the payload already holds; the
    /// path is held.
    PathConflict(String),
    /// The input was refused at the given step, for the given cause.
    Io(PatchStage, IoCause),
}

/// Why a step refused its input.
#[derive(Clone, PartialEq, Eq, Debug)]
pub enum IoCause {
    /// The codec that does the step reported an error; its own words are held.
    Reported(String),
    /// A member of the package has its name not in its header but elsewhere.
    NamelessMember,
    /// A member of the package holds less than its header declares.
    MemberCutShort,
    /// The path or the link target of an entry of the payload is no text.
    NameNotText,
}

/// A cause as a value of mathematics. Of the words of a codec nothing is
/// known, so they are left out.
pub enum IoCauseView {
    Reported,
    NamelessMember,
    MemberCutShort,
    NameNotText,
}

impl View for IoCause {
    type V = IoCauseView;

    open spec fn view(&self) -> IoCauseView {
        match *self {
            IoCause::Reported(_) => IoCauseView::Reported,
            IoCause::NamelessMember => IoCauseView::NamelessMember,
            IoCause::MemberCutShort => IoCauseView::MemberCutShort,
            IoCause::NameNotText => IoCauseView::NameNotText,
        }
    }
}

impl IoCause {
    /// The cause in words: the words of the codec, or the library's own.
    pub open spec fn words(self) -> Seq<char> {
        match self {
            IoCause::Reported(words) => words@,
            IoCause::NamelessMember => "a member of the package has no name in its header"@,
            IoCause::MemberCutShort => "a member of the package is cut short"@,
            IoCause::NameNotText => "a name in the payload is not valid UTF-8"@,
        }
    }
}

/// A failed patch as a value of mathematics.
pub enum PatchFailure {
    MissingPayload,
    UnsupportedFormat(Seq<u8>),
    PathConflict(Seq<char>),
    Io(PatchStage, IoCauseView),
}

impl View for PatchError {
    type V = PatchFailure;

    open spec fn view(&self) -> PatchFailure {
        match *self {
            PatchError::MissingPayload => PatchFailure::MissingPayload,
            PatchError::UnsupportedFormat(name) => PatchFailure::UnsupportedFormat(name@),
            PatchError::PathConflict(path) => PatchFailure::PathConflict(path@),
            PatchError::Io(stage, cause) => PatchFailure::Io(stage, cause@),
        }
    }
}

impl PatchError {
    /// The failure in words.
    pub open spec fn message_text(self) -> Seq<char> {
        match self {
            PatchError::MissingPayload => "deb package missing data archive"@,
            PatchError::UnsupportedFormat(name) => "unsupported data archive format: "@
                + utf8_lossy(name@),
            PatchError::PathConflict(path) => "data archive already contains path: "@ + path@,
            PatchError::Io(_, cause) => cause.words(),
        }
    }

    /// The failure in words, for the user.
    pub fn message(&self) -> (text: String)
        ensures
            text@ == self.message_text(),
    {
        match self {
            PatchError::MissingPayload => String::from_str("deb package missing data archive"),
            PatchError::UnsupportedFormat(name) => {
                let shown = lossy_text(name.as_slice());
                String::from_str("unsupported data archive format: ").concat(shown.as_str())
            },
            PatchError::PathConflict(path) => String::from_str(
                "data archive already contains path: ",
            ).concat(path.as_str()),
            PatchError::Io(_, IoCause::Reported(words)) => words.clone(),
            PatchError::Io(_, IoCause::NamelessMember) => String::from_str(
                "a member of the package has no name in its header",
            ),
            PatchError::Io(_, IoCause::MemberCutShort) => String::from_str(
                "a member of the package is cut short",
            ),
            PatchError::Io(_, IoCause::NameNotText) => String::from_str(
                "a name in the payload is not valid UTF-8",
            ),
        }
    }
}

} // verus!
