use vimprover::error::Error;

#[test]
fn every_error_says_what_happened() {
    let s = |t: &str| t.to_string();
    assert_eq!(
        Error::FfprobeNotFound(s("cannot find binary path")).to_string(),
        "ffprobe binary not found; install ffmpeg or set VIMPROVER_FFPROBE"
    );
    assert_eq!(
        Error::FfmpegNotFound(s("cannot find binary path")).to_string(),
        "ffmpeg binary not found; install ffmpeg or set VIMPROVER_FFMPEG"
    );
    assert_eq!(Error::InputNotFound(s("a.vob")).to_string(), "input file does not exist: a.vob");
    assert_eq!(Error::InputNotFile(s("dir")).to_string(), "input path is not a regular file: dir");
    assert_eq!(
        Error::FfprobeFailed { path: s("a"), status: -1, stderr: s("oops\n") }.to_string(),
        "ffprobe failed on a (exit -1):\noops\n"
    );
    assert_eq!(
        Error::FfprobeParse { path: s("a"), source: s("EOF") }.to_string(),
        "could not parse ffprobe output for a: EOF"
    );
    assert_eq!(Error::NoStreams(s("a")).to_string(), "ffprobe reported no streams for a");
    assert_eq!(Error::NoVideoStream(s("a")).to_string(), "ffprobe reported no video stream for a");
    assert_eq!(Error::Io(s("disk full")).to_string(), "i/o error: disk full");
    assert_eq!(
        Error::ConcatTooFewInputs(1).to_string(),
        "concat needs at least two inputs (got 1)"
    );
    let differ = Error::ConcatInputsDiffer { path: s("b.mp4"), why: s("video resolution (..)") };
    let differ = differ.to_string();
    assert!(differ.contains("concat refused") && differ.contains("normalize"));
    assert!(differ.contains("b.mp4") && differ.contains("video resolution (..)"));
    let small = Error::NothingToShrink(s("source is already small")).to_string();
    assert!(small.contains("source is already") && small.contains("--target-bitrate"));
    assert!(Error::OutputExists(s("o.mkv")).to_string().contains("already exists: o.mkv"));
    let stale = Error::PartialOutputExists(s("o.partial.mkv")).to_string();
    assert!(stale.contains("partial output from a prior run exists: o.partial.mkv"));
    assert!(stale.contains("--overwrite"));
    assert_eq!(Error::FfmpegFailed { status: 187 }.to_string(), "ffmpeg failed (exit 187)");
    assert_eq!(
        Error::RenameFailed { from: s("a"), to: s("b"), source: s("denied") }.to_string(),
        "could not rename a to b: denied"
    );
}

#[test]
fn causes_lie_beneath_their_errors() {
    let s = |t: &str| t.to_string();
    let not_found = "cannot find binary path";
    assert_eq!(
        Error::FfprobeNotFound(s(not_found)).chain(),
        ["ffprobe binary not found; install ffmpeg or set VIMPROVER_FFPROBE", not_found]
    );
    assert_eq!(
        Error::FfmpegNotFound(s(not_found)).chain(),
        ["ffmpeg binary not found; install ffmpeg or set VIMPROVER_FFMPEG", not_found]
    );
    assert_eq!(
        Error::FfprobeParse { path: s("a"), source: s("EOF") }.chain(),
        ["could not parse ffprobe output for a: EOF", "EOF"]
    );
    assert_eq!(Error::Io(s("disk full")).chain(), ["i/o error: disk full", "disk full"]);
    assert_eq!(
        Error::RenameFailed { from: s("a"), to: s("b"), source: s("busy") }.chain(),
        ["could not rename a to b: busy", "busy"]
    );
    assert_eq!(Error::FfmpegFailed { status: 3 }.chain(), ["ffmpeg failed (exit 3)"]);
}
