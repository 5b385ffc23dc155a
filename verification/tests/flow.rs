use vimprover::cli::FlowFlags;
use vimprover::error::Error;
use vimprover::execute::{RunAction, RunEvent, RunJob, RunState};
use vimprover::flow::{
    prepare_concat, prepare_single, prepare_upgrade, render_done, render_failure, render_preview,
    render_stranded, FlowAction, FlowEvent, FlowFailure, FlowState, Job, NoAnswer, Preview, Restored, Verdict,
};
use vimprover::model::{
    AudioCodec, AudioInfo, Container, FieldOrder, MediaProfile, PixFmt, Rational, Seconds,
    VideoCodec, VideoInfo,
};
use vimprover::plan::{Intent, Overrides};

/// A span of time from a floating-point number.
fn secs(seconds: f64) -> Seconds {
    Seconds::from_bits(seconds.to_bits()).unwrap()
}

fn flags() -> FlowFlags {
    FlowFlags { dry_run: false, overwrite: false, force: false, yes: true }
}

fn dvd() -> MediaProfile {
    MediaProfile {
        container: Container::MpegPs,
        video: VideoInfo {
            codec: VideoCodec::Mpeg2,
            width: 720,
            height: 480,
            field_order: FieldOrder::InterlacedTopFirst,
            framerate: Rational::new(30000, 1001),
            pix_fmt: Some(PixFmt::Yuv420p),
            sar: Rational::new(10, 11),
            is_hdr: false,
        },
        audio: vec![AudioInfo {
            codec: AudioCodec::Ac3,
            channels: Some(6),
            channel_layout: Some("5.1(side)".to_string()),
            sample_rate_hz: Some(48_000),
            bitrate_bps: Some(448_000),
            language: Some("eng".to_string()),
        }],
        duration_secs: Some(secs(5520.36)),
        file_size_bytes: Some(4_509_876_543),
        bitrate_bps: Some(6_534_220),
    }
}

fn fine(container: Container) -> MediaProfile {
    let mut p = dvd();
    p.container = container;
    p.video.codec = VideoCodec::H264;
    p.video.field_order = FieldOrder::Progressive;
    p.video.sar = Rational::new(1, 1);
    p.audio[0].codec = AudioCodec::Aac;
    p
}

fn job(preview: Preview) -> Job {
    match preview.verdict {
        Verdict::Proceed(job) => job,
        other => panic!("expected a job, got {other:?}"),
    }
}

fn upgrade_job(input: &str, flags: FlowFlags) -> Job {
    let overrides = Overrides { container: Some(Container::Mp4), ..Overrides::default() };
    job(prepare_upgrade(input, &Intent::Reencode, &overrides, flags, &fine(Container::Mp4)))
}

#[test]
fn a_single_run_is_reported_in_full() {
    let preview = prepare_single(
        "old-rip.vob",
        "newname",
        &Intent::Auto,
        &Overrides::default(),
        flags(),
        &dvd(),
    );
    assert_eq!(
        preview.report,
        "File:      old-rip.vob
Container: MPEG-PS, 4.2 GiB, 1h32m00s, 6.5 Mbps
Video:     MPEG-2, 720x480 (display 655x480), interlaced (TFF), 29.970 fps, yuv420p, SAR 10:11
Audio 1:   AC-3, 5.1(side), 48 kHz, 448 kbps (eng)

Issues:    legacy video codec (MPEG-2)
           legacy container (MPEG-PS)
           interlaced source
           non-square pixels (SAR 10:11)

Plan:      Re-encode video to H.264 (CRF 20, medium preset) in Matroska (MKV)
           Deinterlace with bwdif
           Scale to 654x480
           Set square pixel aspect ratio
           Downmix audio to AAC stereo 192 kbps
           Output: newname.mkv
"
    );
    let job = job(preview);
    assert_eq!(job.output, "newname.mkv");
    assert_eq!(job.inputs, ["old-rip.vob"]);
    assert_eq!(job.source_containers, [Container::MpegPs]);
    assert_eq!(job.backup, None);
}

#[test]
fn a_fine_file_is_left_alone_unless_forced() {
    let run = |intent: &Intent, flags: FlowFlags| {
        prepare_single("in.mp4", "out", intent, &Overrides::default(), flags, &fine(Container::Mp4))
    };
    let refused = run(&Intent::Auto, flags());
    assert!(!refused.report.contains("Issues:"));
    match refused.verdict {
        Verdict::Refused(why) => assert_eq!(
            why,
            "in.mp4 is already fine — pass --force to process anyway, or use --reencode / --intent for an explicit action."
        ),
        other => panic!("{other:?}"),
    }
    let forced = FlowFlags { force: true, ..flags() };
    assert_eq!(job(run(&Intent::Auto, forced)).output, "out.mkv");
    assert_eq!(job(run(&Intent::Remux, flags())).output, "out.mkv");
    assert!(matches!(
        run(&Intent::Concat, flags()).verdict,
        Verdict::PlanFailed(Error::ConcatTooFewInputs(1))
    ));
}

#[test]
fn the_prompt_comes_before_any_change() {
    let asked = FlowFlags { yes: false, ..flags() };
    let job = job(prepare_single("a.vob", "b", &Intent::Auto, &Overrides::default(), asked, &dvd()));
    let state = FlowState::start(&job);
    assert!(matches!(state.action(&job), FlowAction::Confirm));
    let state = state.next(&job, FlowEvent::Answered(Ok(false)));
    assert!(matches!(state, FlowState::Declined));
    assert!(matches!(state.action(&job), FlowAction::Stop));
    let state = FlowState::start(&job).next(&job, FlowEvent::Answered(Ok(true)));
    assert!(matches!(state.action(&job), FlowAction::Encode));
    let state = state.next(&job, FlowEvent::Encoded(Ok(())));
    assert!(matches!(state, FlowState::Done));
    let state = FlowState::start(&job).next(&job, FlowEvent::Answered(Err(NoAnswer::NoTerminal)));
    match state {
        FlowState::Failed(failure) => assert_eq!(
            render_failure(&job, &failure),
            ["stdin is not a terminal; pass --yes to skip the confirmation prompt in non-interactive runs"]
        ),
        other => panic!("{other:?}"),
    }
    let unreadable = FlowEvent::Answered(Err(NoAnswer::Unreadable("closed".to_string())));
    match FlowState::start(&job).next(&job, unreadable) {
        FlowState::Failed(failure) => {
            assert_eq!(render_failure(&job, &failure), ["reading confirmation from stdin", "closed"])
        }
        other => panic!("{other:?}"),
    }
}

#[test]
fn a_dry_run_only_looks_for_ffmpeg() {
    let dry = FlowFlags { dry_run: true, ..flags() };
    let job = job(prepare_single("a b.vob", "b", &Intent::Remux, &Overrides::default(), dry, &dvd()));
    let state = FlowState::start(&job);
    assert!(matches!(state.action(&job), FlowAction::LocateFfmpeg));
    let state = state.next(&job, FlowEvent::Located(Ok("/bin/ffmpeg".to_string())));
    let FlowState::Previewed { ffmpeg } = state else { panic!("{state:?}") };
    assert_eq!(
        render_preview(&job, &ffmpeg),
        "\nCommand:   /bin/ffmpeg -hide_banner -loglevel warning -stats -n -fflags +genpts -i 'a b.vob' \
         -map 0:v:0 -map '0:a?' -map '0:s?' -c:v copy -c:a copy -c:s copy b.mkv\n\n\
         (dry run — not executing)\n"
    );
    let state = FlowState::start(&job).next(&job, FlowEvent::Located(Err("not on the path".to_string())));
    match state {
        FlowState::Failed(failure) => assert_eq!(
            render_failure(&job, &failure),
            ["ffmpeg binary not found; install ffmpeg or set VIMPROVER_FFMPEG", "not on the path"]
        ),
        other => panic!("{other:?}"),
    }
}

#[test]
fn joining_inputs() {
    let profiles = [fine(Container::Mp4), fine(Container::Mp4)];
    let inputs = vec!["a.mp4".to_string(), "b.mp4".to_string()];
    let dry = FlowFlags { dry_run: true, ..flags() };
    let preview = prepare_concat(inputs, "joined", &Overrides::default(), dry, &profiles);
    assert_eq!(
        preview.report,
        "\nPlan:      Concat 2 inputs via demuxer (stream copy) in Matroska (MKV)\n           Output: joined.mkv\n"
    );
    let job = job(preview);
    assert_eq!(job.source_containers, [Container::Mp4, Container::Mp4]);
    let shown = render_preview(&job, "ffmpeg");
    assert!(shown.contains("-f concat -safe 0 -i '<concat-list-tempfile>'"), "{shown}");
    assert!(shown.ends_with("(dry run — not executing; the list file is created at run time)\n"));
    assert_eq!(
        render_done(&job, Some(2_000), 2_048, secs(1.4)),
        "Done. Joined 2 inputs into joined.mkv (2.0 KiB → 2.0 KiB, 2% larger, 1s)."
    );
    let mut other = fine(Container::Mp4);
    other.video.width = 640;
    let inputs = vec!["a.mp4".to_string(), "b.mp4".to_string()];
    let profiles = [fine(Container::Mp4), other];
    let preview = prepare_concat(inputs, "joined", &Overrides::default(), flags(), &profiles);
    assert_eq!(preview.report, "");
    match preview.verdict {
        Verdict::PlanFailed(Error::ConcatInputsDiffer { path, why }) => {
            assert_eq!(path, "b.mp4");
            assert_eq!(why, "video resolution (720x480 vs 640x480)");
        }
        other => panic!("{other:?}"),
    }
}

#[test]
fn an_upgrade_next_to_the_original() {
    let preview =
        prepare_upgrade("d/clip.avi", &Intent::Auto, &Overrides::default(), flags(), &dvd());
    assert!(preview.report.ends_with(
        "           Output: d/clip.mkv\n           Original d/clip.avi will be preserved unchanged\n"
    ));
    let job = job(preview);
    assert_eq!(job.backup, None);
    let state = FlowState::start(&job);
    assert!(matches!(state.action(&job), FlowAction::QueryExists(p) if p == "d/clip.mkv"));
    let taken = FlowState::start(&job).next(&job, FlowEvent::Exists(true));
    match taken {
        FlowState::Failed(failure) => assert_eq!(
            render_failure(&job, &failure),
            ["output already exists: d/clip.mkv (pass --overwrite to replace)"]
        ),
        other => panic!("{other:?}"),
    }
    let state = state.next(&job, FlowEvent::Exists(false));
    assert!(matches!(state.action(&job), FlowAction::Encode));
    let state = state.next(&job, FlowEvent::Encoded(Err(Error::FfmpegFailed { status: 1 })));
    match state {
        FlowState::Failed(failure) => {
            assert!(matches!(
                &failure,
                FlowFailure::NotEncoded { original: Restored::NotMoved, .. }
            ));
            assert_eq!(render_failure(&job, &failure), ["encoding to d/clip.mkv", "ffmpeg failed (exit 1)"]);
            assert_eq!(render_stranded(&job, &failure), None);
        }
        other => panic!("{other:?}"),
    }
}

#[test]
fn an_upgrade_over_the_original_moves_it_aside_and_back() {
    let job = upgrade_job("/v/clip.mp4", flags());
    let backup = "/v/clip.vimprover-orig.mp4";
    assert_eq!(job.output, "/v/clip.mp4");
    assert_eq!(job.backup.as_deref(), Some(backup));
    let state = FlowState::start(&job);
    assert!(matches!(state.action(&job), FlowAction::QueryExists(p) if p == backup));
    let state = state.next(&job, FlowEvent::Exists(false));
    match state.action(&job) {
        FlowAction::Rename { from, to } => assert_eq!((from.as_str(), to.as_str()), ("/v/clip.mp4", backup)),
        other => panic!("{other:?}"),
    }
    let state = state.next(&job, FlowEvent::Renamed(Ok(())));
    assert!(matches!(state.action(&job), FlowAction::Encode));
    let state = state.next(&job, FlowEvent::Encoded(Err(Error::Io("gone".to_string()))));
    match state.action(&job) {
        FlowAction::Rename { from, to } => assert_eq!((from.as_str(), to.as_str()), (backup, "/v/clip.mp4")),
        other => panic!("{other:?}"),
    }
    let state = state.next(&job, FlowEvent::Renamed(Err("busy".to_string())));
    match &state {
        FlowState::Failed(failure) => assert_eq!(
            render_stranded(&job, failure).unwrap(),
            "warning: upgrade failed and could not restore backup /v/clip.vimprover-orig.mp4 to /v/clip.mp4: busy\n\
             the original file is preserved at: /v/clip.vimprover-orig.mp4"
        ),
        other => panic!("{other:?}"),
    }
    assert_eq!(
        render_done(&job, Some(847 << 20), 312 << 20, secs(492.0)),
        "Done. Wrote /v/clip.mp4 (847 MiB → 312 MiB, 63% smaller, 8m12s).\n\
         Original preserved at: /v/clip.vimprover-orig.mp4"
    );
    let run = job.run_job();
    assert_eq!(run.inputs, [backup]);
    assert_eq!(run.partial, "/v/clip.partial.mp4");
}

#[test]
fn an_upgrade_rolls_back_and_refuses_stale_backups() {
    let job = upgrade_job("clip.mp4", flags());
    let state = FlowState::start(&job).next(&job, FlowEvent::Exists(true));
    match &state {
        FlowState::Failed(failure) => assert_eq!(
            render_failure(&job, failure),
            ["backup file from a prior upgrade exists: clip.vimprover-orig.mp4 (pass --overwrite to replace, or remove it manually)"]
        ),
        other => panic!("{other:?}"),
    }
    let state = FlowState::MoveBack { error: Error::FfmpegFailed { status: 2 } }
        .next(&job, FlowEvent::Renamed(Ok(())));
    assert!(matches!(
        state,
        FlowState::Failed(FlowFailure::NotEncoded { original: Restored::Back, .. })
    ));
    let state = FlowState::MoveAside.next(&job, FlowEvent::Renamed(Err("read-only".to_string())));
    match &state {
        FlowState::Failed(failure) => assert_eq!(
            render_failure(&job, failure),
            ["renaming original to backup (clip.mp4 → clip.vimprover-orig.mp4)", "read-only"]
        ),
        other => panic!("{other:?}"),
    }
    let overwrite = FlowFlags { overwrite: true, ..flags() };
    let job = upgrade_job("clip.mp4", overwrite);
    let state = FlowState::start(&job);
    assert!(matches!(state.action(&job), FlowAction::RemoveFile(p) if p == "clip.vimprover-orig.mp4"));
    let state = state.next(&job, FlowEvent::Removed);
    assert!(matches!(state, FlowState::MoveAside));
    // An event that answers nothing changes nothing.
    assert!(matches!(state.next(&job, FlowEvent::Removed), FlowState::MoveAside));
}

/// A file system of a few files, on which a run is carried out.
fn run_on(files: &mut Vec<(String, &'static str)>, job: &RunJob, success: bool) -> RunState {
    let mut state = RunState::start(job);
    loop {
        let event = match state.action(job) {
            RunAction::QueryExists(p) => RunEvent::Exists(files.iter().any(|f| f.0 == p)),
            RunAction::RemoveFile(p) => {
                files.retain(|f| f.0 != p);
                RunEvent::Removed
            }
            RunAction::CreateList => {
                files.push(("/tmp/list".to_string(), ""));
                RunEvent::ListCreated(Ok("/tmp/list".to_string()))
            }
            RunAction::QueryDirectory => RunEvent::Directory(Ok("/home/me".to_string())),
            RunAction::WriteFile { path, text } => {
                assert_eq!(path, "/tmp/list");
                assert_eq!(text, "file '/home/me/a.mp4'\nfile '/home/me/b.mp4'\n");
                RunEvent::Written(Ok(()))
            }
            RunAction::LocateFfmpeg => RunEvent::Located(Ok("ffmpeg".to_string())),
            RunAction::Spawn { program, args } => {
                assert_eq!(program, "ffmpeg");
                let target = args.last().unwrap().clone();
                assert_eq!(target, job.partial);
                let listed = files.iter().any(|f| f.0 == "/tmp/list");
                assert_eq!(listed, args.iter().any(|a| a == "/tmp/list"));
                files.retain(|f| f.0 != target);
                files.push((target, "new"));
                RunEvent::Exited { success, code: if success { Some(0) } else { None } }
            }
            RunAction::Rename { from, to } => {
                files.retain(|f| f.0 != to);
                for f in files.iter_mut() {
                    if f.0 == from {
                        f.0 = to.clone();
                    }
                }
                RunEvent::Renamed(Ok(()))
            }
            RunAction::Stop => return state,
        };
        state = state.next(job, event);
    }
}

fn run_job(output: &str, overwrite: bool) -> RunJob {
    let flags = FlowFlags { overwrite, ..flags() };
    job(prepare_single("a.vob", output, &Intent::Auto, &Overrides::default(), flags, &dvd())).run_job()
}

#[test]
fn a_successful_run_leaves_only_the_output() {
    let job = run_job("out", false);
    let mut files = Vec::new();
    assert!(matches!(run_on(&mut files, &job, true), RunState::Done));
    assert_eq!(files, [("out.mkv".to_string(), "new")]);
}

#[test]
fn a_failed_run_keeps_the_partial_and_the_old_output() {
    let job = run_job("out", true);
    let mut files = vec![("out.mkv".to_string(), "old"), ("out.partial.mkv".to_string(), "stale")];
    let state = run_on(&mut files, &job, false);
    assert!(matches!(state, RunState::Failed(Error::FfmpegFailed { status: -1 })));
    assert_eq!(files, [("out.mkv".to_string(), "old"), ("out.partial.mkv".to_string(), "new")]);
    assert!(matches!(run_on(&mut files, &job, true), RunState::Done));
    assert_eq!(files, [("out.mkv".to_string(), "new")]);
}

#[test]
fn existing_files_are_refused_without_permission() {
    let job = run_job("out", false);
    let mut files = vec![("out.mkv".to_string(), "old")];
    assert!(matches!(
        run_on(&mut files, &job, true),
        RunState::Failed(Error::OutputExists(p)) if p == "out.mkv"
    ));
    assert_eq!(files, [("out.mkv".to_string(), "old")]);
    let mut files = vec![("out.partial.mkv".to_string(), "stale")];
    assert!(matches!(
        run_on(&mut files, &job, true),
        RunState::Failed(Error::PartialOutputExists(p)) if p == "out.partial.mkv"
    ));
    assert_eq!(files, [("out.partial.mkv".to_string(), "stale")]);
}

fn joined() -> RunJob {
    let inputs = vec!["a.mp4".to_string(), "b.mp4".to_string()];
    let mut profile = dvd();
    profile.container = Container::Mp4;
    let profiles = [profile.clone(), profile];
    job(prepare_concat(inputs, "out.mp4", &Overrides::default(), flags(), &profiles)).run_job()
}

#[test]
fn a_list_file_is_removed_when_ffmpeg_has_ended() {
    let job = joined();
    let mut files = Vec::new();
    assert!(matches!(run_on(&mut files, &job, true), RunState::Done));
    assert_eq!(files, [("out.mp4".to_string(), "new")]);
    let mut files = Vec::new();
    let state = run_on(&mut files, &job, false);
    assert!(matches!(state, RunState::Failed(Error::FfmpegFailed { status: -1 })));
    assert_eq!(files, [("out.partial.mp4".to_string(), "new")]);
}

#[test]
fn a_list_file_is_removed_before_a_run_fails() {
    let job = joined();
    let list = || Some("/tmp/list".to_string());
    let encode = || RunState::Encode { ffmpeg: "ffmpeg".to_string(), list: list() };
    let failures = [
        (
            RunState::FindDirectory { file: "/tmp/list".to_string() },
            RunEvent::Directory(Err("gone".to_string())),
            Error::Io("gone".to_string()),
        ),
        (
            RunState::WriteList { file: "/tmp/list".to_string(), text: "x".to_string() },
            RunEvent::Written(Err("full".to_string())),
            Error::Io("full".to_string()),
        ),
        (
            RunState::Locate { list: list() },
            RunEvent::Located(Err("not on the path".to_string())),
            Error::FfmpegNotFound("not on the path".to_string()),
        ),
        (encode(), RunEvent::SpawnFailed("denied".to_string()), Error::Io("denied".to_string())),
        (
            encode(),
            RunEvent::Exited { success: false, code: Some(8) },
            Error::FfmpegFailed { status: 8 },
        ),
    ];
    for (state, event, error) in failures {
        let state = state.next(&job, event);
        assert!(matches!(state.action(&job), RunAction::RemoveFile(p) if p == "/tmp/list"));
        match state.next(&job, RunEvent::Removed) {
            RunState::Failed(e) => assert_eq!(e.chain(), error.chain()),
            other => panic!("{other:?}"),
        }
    }
    let state = encode().next(&job, RunEvent::Exited { success: true, code: Some(0) });
    assert!(matches!(state.action(&job), RunAction::RemoveFile(p) if p == "/tmp/list"));
    assert!(matches!(state.next(&job, RunEvent::Removed), RunState::Promote));
}

#[test]
fn a_run_reports_what_went_wrong() {
    let job = run_job("out", false);
    let s = |t: &str| t.to_string();
    let failed = |state: RunState| match state {
        RunState::Failed(error) => error.to_string(),
        other => panic!("{other:?}"),
    };
    let at = || RunState::Locate { list: None };
    assert_eq!(
        failed(at().next(&job, RunEvent::Located(Err(s("not on the path"))))),
        Error::FfmpegNotFound(s("not on the path")).to_string()
    );
    let at = || RunState::Encode { ffmpeg: s("ffmpeg"), list: None };
    assert_eq!(failed(at().next(&job, RunEvent::SpawnFailed(s("denied")))), "i/o error: denied");
    assert_eq!(
        failed(at().next(&job, RunEvent::Exited { success: false, code: Some(8) })),
        "ffmpeg failed (exit 8)"
    );
    assert_eq!(
        failed(RunState::CreateList.next(&job, RunEvent::ListCreated(Err(s("full"))))),
        "i/o error: full"
    );
    assert_eq!(
        failed(RunState::Promote.next(&job, RunEvent::Renamed(Err(s("cross-device"))))),
        "could not rename out.partial.mkv to out.mkv: cross-device"
    );
}

/// Carry out a whole job on a file system of a few files. Nobody is asked.
fn carry_out(files: &mut Vec<(String, &'static str)>, job: &Job, success: bool) -> FlowState {
    let mut state = FlowState::start(job);
    loop {
        let event = match state.action(job) {
            FlowAction::QueryExists(p) => FlowEvent::Exists(files.iter().any(|f| f.0 == p)),
            FlowAction::LocateFfmpeg => FlowEvent::Located(Ok("ffmpeg".to_string())),
            FlowAction::Confirm => FlowEvent::Answered(Err(NoAnswer::NoTerminal)),
            FlowAction::RemoveFile(p) => {
                files.retain(|f| f.0 != p);
                FlowEvent::Removed
            }
            FlowAction::Rename { from, to } => {
                files.retain(|f| f.0 != to);
                for f in files.iter_mut().filter(|f| f.0 == from) {
                    f.0 = to.clone();
                }
                FlowEvent::Renamed(Ok(()))
            }
            FlowAction::Encode => FlowEvent::Encoded(match run_on(files, &job.run_job(), success) {
                RunState::Failed(error) => Err(error),
                _ => Ok(()),
            }),
            FlowAction::Stop => return state,
        };
        state = state.next(job, event);
    }
}

fn sorted(mut files: Vec<(String, &'static str)>) -> Vec<(String, &'static str)> {
    files.sort();
    files
}

#[test]
fn a_whole_upgrade_keeps_the_original() {
    let yes = FlowFlags { yes: true, ..flags() };
    let s = |t: &str| t.to_string();
    let job = upgrade_job("clip.mp4", yes);
    let mut files = vec![(s("clip.mp4"), "original")];
    assert!(matches!(carry_out(&mut files, &job, true), FlowState::Done));
    assert_eq!(sorted(files), [(s("clip.mp4"), "new"), (s("clip.vimprover-orig.mp4"), "original")]);
    // A failure is rolled back; what ffmpeg wrote is left to look at.
    let mut files = vec![(s("clip.mp4"), "original")];
    let state = carry_out(&mut files, &job, false);
    match &state {
        FlowState::Failed(failure) => assert_eq!(
            render_failure(&job, failure),
            ["encoding to clip.mp4", "ffmpeg failed (exit -1)"]
        ),
        other => panic!("{other:?}"),
    }
    assert_eq!(sorted(files), [(s("clip.mp4"), "original"), (s("clip.partial.mp4"), "new")]);
    // A stale backup is refused, and replaced only with permission.
    let stale = || vec![(s("clip.mp4"), "original"), (s("clip.vimprover-orig.mp4"), "stale")];
    let mut files = stale();
    assert!(matches!(
        carry_out(&mut files, &job, true),
        FlowState::Failed(FlowFailure::BackupExists)
    ));
    assert_eq!(files, stale());
    let mut files = stale();
    let overwriting = upgrade_job("clip.mp4", FlowFlags { overwrite: true, ..yes });
    assert!(matches!(carry_out(&mut files, &overwriting, true), FlowState::Done));
    assert_eq!(sorted(files), [(s("clip.mp4"), "new"), (s("clip.vimprover-orig.mp4"), "original")]);
}

#[test]
fn a_whole_job_changes_nothing_without_consent() {
    let s = |t: &str| t.to_string();
    for flags in [
        FlowFlags { dry_run: true, ..flags() },
        FlowFlags { dry_run: true, overwrite: true, yes: true, ..flags() },
        FlowFlags { yes: false, ..flags() },
    ] {
        let mut files = vec![(s("clip.mp4"), "original")];
        let state = carry_out(&mut files, &upgrade_job("clip.mp4", flags), true);
        assert_eq!(
            matches!(state, FlowState::Previewed { .. }),
            flags.dry_run,
            "{state:?}"
        );
        assert_eq!(files, [(s("clip.mp4"), "original")]);
    }
}
