//! Typed errors of the library.

use vstd::prelude::*;

use crate::text;

verus! {

/// All errors produced by the library.
#[derive(Debug)]
pub enum Error {
    /// Why no ffprobe was found.
    FfprobeNotFound(String),
    /// Why no ffmpeg was found.
    FfmpegNotFound(String),
    InputNotFound(String),
    InputNotFile(String),
    FfprobeFailed { path: String, status: i32, stderr: String },
    FfprobeParse { path: String, source: String },
    NoStreams(String),
    NoVideoStream(String),
    Io(String),
    /// Fewer than two inputs were given to join.
    ConcatTooFewInputs(usize),
    /// The first input whose streams diverge from those of the first one.
    ConcatInputsDiffer { path: String, why: String },
    /// The source is already at or below the bitrate that shrinking aims at.
    NothingToShrink(String),
    OutputExists(String),
    PartialOutputExists(String),
    FfmpegFailed { status: i32 },
    RenameFailed { from: String, to: String, source: String },
}

/// What an [`Error`] says, with its strings as texts.
pub enum ErrorView {
    FfprobeNotFound(Seq<char>),
    FfmpegNotFound(Seq<char>),
    InputNotFound(Seq<char>),
    InputNotFile(Seq<char>),
    FfprobeFailed { path: Seq<char>, status: i32, stderr: Seq<char> },
    FfprobeParse { path: Seq<char>, source: Seq<char> },
    NoStreams(Seq<char>),
    NoVideoStream(Seq<char>),
    Io(Seq<char>),
    ConcatTooFewInputs(usize),
    ConcatInputsDiffer { path: Seq<char>, why: Seq<char> },
    NothingToShrink(Seq<char>),
    OutputExists(Seq<char>),
    PartialOutputExists(Seq<char>),
    FfmpegFailed { status: i32 },
    RenameFailed { from: Seq<char>, to: Seq<char>, source: Seq<char> },
}

impl View for Error {
    type V = ErrorView;

    open spec fn view(&self) -> ErrorView {
        match *self {
            Error::FfprobeNotFound(why) => ErrorView::FfprobeNotFound(why@),
            Error::FfmpegNotFound(why) => ErrorView::FfmpegNotFound(why@),
            Error::InputNotFound(it) => ErrorView::InputNotFound(it@),
            Error::InputNotFile(it) => ErrorView::InputNotFile(it@),
            Error::FfprobeFailed { path, status, stderr } => {
                ErrorView::FfprobeFailed { path: path@, status, stderr: stderr@ }
            },
            Error::FfprobeParse { path, source } => {
                ErrorView::FfprobeParse { path: path@, source: source@ }
            },
            Error::NoStreams(it) => ErrorView::NoStreams(it@),
            Error::NoVideoStream(it) => ErrorView::NoVideoStream(it@),
            Error::Io(it) => ErrorView::Io(it@),
            Error::ConcatTooFewInputs(it) => ErrorView::ConcatTooFewInputs(it),
            Error::ConcatInputsDiffer { path, why } => {
                ErrorView::ConcatInputsDiffer { path: path@, why: why@ }
            },
            Error::NothingToShrink(it) => ErrorView::NothingToShrink(it@),
            Error::OutputExists(it) => ErrorView::OutputExists(it@),
            Error::PartialOutputExists(it) => ErrorView::PartialOutputExists(it@),
            Error::FfmpegFailed { status } => ErrorView::FfmpegFailed { status },
            Error::RenameFailed { from, to, source } => {
                ErrorView::RenameFailed { from: from@, to: to@, source: source@ }
            },
        }
    }
}

impl ErrorView {
    /// The message for people.
    pub open spec fn message(self) -> Seq<char> {
        match self {
            ErrorView::FfprobeNotFound(_) => {
                "ffprobe binary not found; install ffmpeg or set VIMPROVER_FFPROBE"@
            },
            ErrorView::FfmpegNotFound(_) => {
                "ffmpeg binary not found; install ffmpeg or set VIMPROVER_FFMPEG"@
            },
            ErrorView::InputNotFound(it) => "input file does not exist: "@ + it,
            ErrorView::InputNotFile(it) => "input path is not a regular file: "@ + it,
            ErrorView::FfprobeFailed { path, status, stderr } => {
                "ffprobe failed on "@ + path + " (exit "@ + text::signed(status as int)
                    + "):\n"@ + stderr
            },
            ErrorView::FfprobeParse { path, source } => {
                "could not parse ffprobe output for "@ + path + ": "@ + source
            },
            ErrorView::NoStreams(it) => "ffprobe reported no streams for "@ + it,
            ErrorView::NoVideoStream(it) => "ffprobe reported no video stream for "@ + it,
            ErrorView::Io(it) => "i/o error: "@ + it,
            ErrorView::ConcatTooFewInputs(it) => {
                "concat needs at least two inputs (got "@ + text::decimal(it as nat) + ")"@
            },
            ErrorView::ConcatInputsDiffer { path, why } => {
                "concat refused: "@ + path + " differs from the first input in its "@ + why
                    + "; normalize the inputs first with `vimprover --reencode` or `--intent shrink`"@
            },
            ErrorView::NothingToShrink(it) => {
                "nothing to shrink: "@ + it
                    + "; pass --max-height or --target-bitrate to shrink it anyway"@
            },
            ErrorView::OutputExists(it) => {
                "output already exists: "@ + it + " (pass --overwrite to replace)"@
            },
            ErrorView::PartialOutputExists(it) => {
                "partial output from a prior run exists: "@ + it
                    + " (pass --overwrite to replace, or remove it manually)"@
            },
            ErrorView::FfmpegFailed { status } => {
                "ffmpeg failed (exit "@ + text::signed(status as int) + ")"@
            },
            ErrorView::RenameFailed { from, to, source } => {
                "could not rename "@ + from + " to "@ + to + ": "@ + source
            },
        }
    }

    /// What lies beneath the error, where something does.
    pub open spec fn cause(self) -> Option<Seq<char>> {
        match self {
            ErrorView::FfprobeNotFound(why) => Some(why),
            ErrorView::FfmpegNotFound(why) => Some(why),
            ErrorView::FfprobeParse { source, .. } => Some(source),
            ErrorView::Io(it) => Some(it),
            ErrorView::RenameFailed { source, .. } => Some(source),
            _ => None,
        }
    }

    /// The message, and what lies beneath it.
    pub open spec fn chain(self) -> Seq<Seq<char>> {
        match self.cause() {
            Some(cause) => seq![self.message(), cause],
            None => seq![self.message()],
        }
    }
}

impl Error {
    /// The message for people.
    pub fn to_string(&self) -> (r: String)
        ensures
            r@ == self@.message(),
    {
        match self {
            Error::FfprobeNotFound(_) => {
                "ffprobe binary not found; install ffmpeg or set VIMPROVER_FFPROBE".to_owned()
            },
            Error::FfmpegNotFound(_) => {
                "ffmpeg binary not found; install ffmpeg or set VIMPROVER_FFMPEG".to_owned()
            },
            Error::InputNotFound(it) => {
                let mut out = "input file does not exist: ".to_owned();
                out.append(it.as_str());
                out
            },
            Error::InputNotFile(it) => {
                let mut out = "input path is not a regular file: ".to_owned();
                out.append(it.as_str());
                out
            },
            Error::FfprobeFailed { path, status, stderr } => {
                let mut out = "ffprobe failed on ".to_owned();
                out.append(path.as_str());
                out.append(" (exit ");
                text::push_signed(&mut out, *status);
                out.append("):\n");
                out.append(stderr.as_str());
                out
            },
            Error::FfprobeParse { path, source } => {
                let mut out = "could not parse ffprobe output for ".to_owned();
                out.append(path.as_str());
                out.append(": ");
                out.append(source.as_str());
                out
            },
            Error::NoStreams(it) => {
                let mut out = "ffprobe reported no streams for ".to_owned();
                out.append(it.as_str());
                out
            },
            Error::NoVideoStream(it) => {
                let mut out = "ffprobe reported no video stream for ".to_owned();
                out.append(it.as_str());
                out
            },
            Error::Io(it) => {
                let mut out = "i/o error: ".to_owned();
                out.append(it.as_str());
                out
            },
            Error::ConcatTooFewInputs(it) => {
                let mut out = "concat needs at least two inputs (got ".to_owned();
                text::push_decimal(&mut out, *it as u64);
                out.append(")");
                out
            },
            Error::ConcatInputsDiffer { path, why } => {
                let mut out = "concat refused: ".to_owned();
                out.append(path.as_str());
                out.append(" differs from the first input in its ");
                out.append(why.as_str());
                out.append(
                    "; normalize the inputs first with `vimprover --reencode` or `--intent shrink`",
                );
                out
            },
            Error::NothingToShrink(it) => {
                let mut out = "nothing to shrink: ".to_owned();
                out.append(it.as_str());
                out.append("; pass --max-height or --target-bitrate to shrink it anyway");
                out
            },
            Error::OutputExists(it) => {
                let mut out = "output already exists: ".to_owned();
                out.append(it.as_str());
                out.append(" (pass --overwrite to replace)");
                out
            },
            Error::PartialOutputExists(it) => {
                let mut out = "partial output from a prior run exists: ".to_owned();
                out.append(it.as_str());
                out.append(" (pass --overwrite to replace, or remove it manually)");
                out
            },
            Error::FfmpegFailed { status } => {
                let mut out = "ffmpeg failed (exit ".to_owned();
                text::push_signed(&mut out, *status);
                out.append(")");
                out
            },
            Error::RenameFailed { from, to, source } => {
                let mut out = "could not rename ".to_owned();
                out.append(from.as_str());
                out.append(" to ");
                out.append(to.as_str());
                out.append(": ");
                out.append(source.as_str());
                out
            },
        }
    }

    /// The message, and what lies beneath it: each on a line of its own when
    /// it is shown.
    pub fn chain(&self) -> (r: Vec<String>)
        ensures
            text::texts(r@) == self@.chain(),
    {
        let mut chain: Vec<String> = Vec::new();
        chain.push(self.to_string());
        match self {
            Error::FfprobeNotFound(why) => {
                chain.push(why.clone());
            },
            Error::FfmpegNotFound(why) => {
                chain.push(why.clone());
            },
            Error::FfprobeParse { source, .. } => {
                chain.push(source.clone());
            },
            Error::Io(it) => {
                chain.push(it.clone());
            },
            Error::RenameFailed { source, .. } => {
                chain.push(source.clone());
            },
            _ => {},
        }
        assert(text::texts(chain@) =~= self@.chain());
        chain
    }
}

} // verus!
