use transcode_bot::attachment::{input_path, output_path, scan, Attachment};
use transcode_bot::encoder::{
    encoder_arguments, encoder_tool, target_codec, EncodeFailure, EncodeOutcome, EncoderSlots,
};
use transcode_bot::pipeline::{reply_caption, Action, Run, Stage};
use transcode_bot::text::decimal_string;

fn attachment(id: u64, kind: Option<&str>, width: Option<u64>, height: Option<u64>) -> Attachment {
    Attachment {
        id,
        content_type: kind.map(|k| k.to_string()),
        width,
        height,
        size: 1024,
        url: format!("https://cdn.example/{}", id),
    }
}

fn drive(attachment: &Attachment, outcomes: &[bool]) -> (Vec<Action>, Run) {
    let (mut run, first) = Run::start(attachment);
    let mut actions = vec![first];
    for ok in outcomes {
        let (next, action) = run.advance(*ok);
        run = next;
        actions.push(action);
    }
    (actions, run)
}

#[test]
fn quicktime_video_is_reencoded_and_sent() {
    let video = attachment(77, Some("video/quicktime"), None, None);
    assert!(video.needs_transcode());
    let (actions, run) = drive(&video, &[true, true, true, true, true, true]);
    assert_eq!(
        actions,
        vec![
            Action::Download,
            Action::WriteInput,
            Action::Encode,
            Action::RemoveInput,
            Action::Reply,
            Action::RemoveOutput,
            Action::Stop,
        ]
    );
    assert_eq!(actions.iter().filter(|a| **a == Action::Reply).count(), 1);
    assert!(run.is_finished());
    assert!(run.encoded && run.reply_requested);
    assert!(!run.input_owed && !run.output_owed);
    assert_eq!(run.id, 77);
    assert_eq!(reply_caption(), "Discord-friendly version: ");
}

#[test]
fn failed_encode_sends_nothing() {
    let video = attachment(78, Some("video/quicktime"), None, None);
    let exit = EncodeOutcome::from_exit(true, Some(1));
    let (actions, run) = drive(&video, &[true, true, exit.succeeded(), true]);
    assert_eq!(
        actions,
        vec![
            Action::Download,
            Action::WriteInput,
            Action::Encode,
            Action::RemoveInput,
            Action::Stop,
        ]
    );
    assert!(!actions.contains(&Action::Reply));
    assert!(!actions.contains(&Action::RemoveOutput));
    assert!(run.is_finished());
    assert!(!run.encoded && !run.reply_requested);
    assert!(!run.input_owed && !run.output_owed);
}

#[test]
fn failed_download_creates_no_file() {
    let video = attachment(1, Some("video/mp4"), None, None);
    let (actions, run) = drive(&video, &[false]);
    assert_eq!(actions, vec![Action::Download, Action::Stop]);
    assert!(run.is_finished());
    assert!(!run.input_owed && !run.output_owed && !run.reply_requested);
}

#[test]
fn failed_staging_still_removes_the_input() {
    let video = attachment(2, Some("video/mp4"), None, None);
    let (actions, run) = drive(&video, &[true, false, true]);
    assert_eq!(
        actions,
        vec![Action::Download, Action::WriteInput, Action::RemoveInput, Action::Stop]
    );
    assert!(run.is_finished());
    assert!(!run.input_owed && !run.output_owed);
}

#[test]
fn failed_reply_still_removes_the_output() {
    let video = attachment(3, Some("video/mp4"), None, None);
    let (actions, run) = drive(&video, &[true, true, true, true, false, true]);
    assert_eq!(actions[4], Action::Reply);
    assert_eq!(actions[5], Action::RemoveOutput);
    assert_eq!(actions[6], Action::Stop);
    assert!(run.is_finished());
    assert!(!run.input_owed && !run.output_owed);
}

#[test]
fn failed_removals_do_not_change_the_course() {
    let video = attachment(4, Some("video/mp4"), None, None);
    let (actions, run) = drive(&video, &[true, true, true, false, true, false]);
    assert_eq!(
        actions,
        vec![
            Action::Download,
            Action::WriteInput,
            Action::Encode,
            Action::RemoveInput,
            Action::Reply,
            Action::RemoveOutput,
            Action::Stop,
        ]
    );
    assert!(run.is_finished());
}

#[test]
fn files_are_owed_while_they_may_exist() {
    let video = attachment(5, Some("video/mp4"), None, None);
    let (_, run) = drive(&video, &[true]);
    assert_eq!(run.stage, Stage::Staging);
    assert!(run.input_owed && !run.output_owed);
    let (_, run) = drive(&video, &[true, true, true]);
    assert_eq!(run.stage, Stage::CleanupInput);
    assert!(run.input_owed && run.output_owed);
    let (_, run) = drive(&video, &[true, true, true, true]);
    assert_eq!(run.stage, Stage::Replying);
    assert!(!run.input_owed && run.output_owed);
}

#[test]
fn every_outcome_sequence_ends_clean_within_six_reports() {
    let video = attachment(6, Some("video/webm"), None, None);
    for bits in 0..64u32 {
        let outcomes: Vec<bool> = (0..6).map(|i| bits & (1 << i) != 0).collect();
        let (actions, run) = drive(&video, &outcomes);
        assert!(run.is_finished());
        assert!(!run.input_owed && !run.output_owed);
        assert_eq!(run.reply_requested, run.encoded);
        assert_eq!(actions.contains(&Action::Reply), outcomes[0] && outcomes[1] && outcomes[2]);
        let writes = actions.iter().filter(|a| **a == Action::WriteInput).count();
        let removes = actions.iter().filter(|a| **a == Action::RemoveInput).count();
        assert_eq!(writes, removes);
    }
}

#[test]
fn finished_run_stays_finished() {
    let video = attachment(7, Some("video/mp4"), None, None);
    let (_, run) = drive(&video, &[false]);
    let (next, action) = run.advance(true);
    assert_eq!(next, run);
    assert_eq!(action, Action::Stop);
}

#[test]
fn unselected_attachments_cause_no_work() {
    let cases = vec![
        attachment(10, Some("video/mp4"), Some(640), Some(480)),
        attachment(11, Some("video/mp4"), Some(640), None),
        attachment(12, Some("video/mp4"), None, Some(480)),
        attachment(13, Some("image/png"), None, None),
        attachment(14, Some("audio/mpeg"), None, None),
        attachment(15, None, None, None),
        attachment(16, Some("video"), None, None),
        attachment(17, Some("Video/mp4"), None, None),
        attachment(18, Some(""), None, None),
    ];
    for case in &cases {
        assert!(!case.needs_transcode());
        let (actions, run) = drive(case, &[true, true, true]);
        assert!(actions.iter().all(|a| *a == Action::Stop));
        assert!(run.is_finished());
        assert!(!run.input_owed && !run.output_owed && !run.reply_requested);
    }
}

#[test]
fn trigger_needs_only_the_video_prefix() {
    assert!(attachment(1, Some("video/"), None, None).needs_transcode());
    assert!(attachment(1, Some("video/x-matroska"), None, None).needs_transcode());
}

#[test]
fn scan_picks_the_qualifying_positions_in_order() {
    let list = vec![
        attachment(1, Some("image/png"), Some(1), Some(1)),
        attachment(2, Some("video/quicktime"), None, None),
        attachment(3, Some("video/mp4"), Some(10), Some(10)),
        attachment(4, Some("video/x-msvideo"), None, None),
    ];
    assert_eq!(scan(&list), vec![1, 3]);
    assert_eq!(scan(&Vec::new()), Vec::<usize>::new());
    assert_eq!(scan(&list[..1].to_vec()), Vec::<usize>::new());
}

#[test]
fn paths_derive_from_the_id() {
    assert_eq!(input_path(123), "123");
    assert_eq!(output_path(123), "123.mp4");
    assert_eq!(input_path(0), "0");
    assert_eq!(output_path(0), "0.mp4");
    assert_eq!(input_path(u64::MAX), "18446744073709551615");
    assert_eq!(output_path(1020304050607080900), "1020304050607080900.mp4");
    assert_eq!(decimal_string(10), "10");
    assert_eq!(decimal_string(9), "9");
    assert_eq!(decimal_string(909), "909");
}

#[test]
fn paths_of_different_ids_differ() {
    let ids = [0u64, 1, 9, 10, 11, 99, 100, 101, 110, 1000, 4, 40, u64::MAX, u64::MAX - 1];
    for a in ids {
        assert_eq!(input_path(a), a.to_string());
        for b in ids {
            if a != b {
                assert_ne!(input_path(a), input_path(b));
                assert_ne!(output_path(a), output_path(b));
            }
            assert_ne!(input_path(a), output_path(b));
        }
    }
}

#[test]
fn encoder_arguments_follow_the_template() {
    assert_eq!(
        encoder_arguments("123", "libx264", "123.mp4"),
        vec!["-i", "123", "-c:v", "libx264", "123.mp4"]
    );
    assert_eq!(encoder_tool(), "ffmpeg");
    assert_eq!(target_codec(), "libx264");
    let id = 42u64;
    assert_eq!(
        encoder_arguments(&input_path(id), target_codec(), &output_path(id)),
        vec!["-i", "42", "-c:v", "libx264", "42.mp4"]
    );
}

#[test]
fn only_exit_code_zero_is_success() {
    assert_eq!(EncodeOutcome::from_exit(true, Some(0)), EncodeOutcome::Success);
    assert!(EncodeOutcome::from_exit(true, Some(0)).succeeded());
    assert_eq!(
        EncodeOutcome::from_exit(true, Some(1)),
        EncodeOutcome::Failure(EncodeFailure::ExitCode(1))
    );
    assert_eq!(
        EncodeOutcome::from_exit(true, Some(-9)),
        EncodeOutcome::Failure(EncodeFailure::ExitCode(-9))
    );
    assert_eq!(
        EncodeOutcome::from_exit(true, None),
        EncodeOutcome::Failure(EncodeFailure::Terminated)
    );
    assert_eq!(
        EncodeOutcome::from_exit(false, None),
        EncodeOutcome::Failure(EncodeFailure::SpawnFailed)
    );
    assert_eq!(
        EncodeOutcome::from_exit(false, Some(0)),
        EncodeOutcome::Failure(EncodeFailure::SpawnFailed)
    );
    assert!(!EncodeOutcome::from_exit(true, Some(1)).succeeded());
    assert!(!EncodeOutcome::from_exit(false, Some(0)).succeeded());
}

#[test]
fn encoder_slots_bound_the_running_processes() {
    let mut slots = EncoderSlots::new(2);
    assert_eq!(slots.in_use(), 0);
    assert!(slots.try_acquire());
    assert!(slots.try_acquire());
    assert!(!slots.try_acquire());
    assert_eq!(slots.in_use(), 2);
    assert!(slots.release());
    assert_eq!(slots.in_use(), 1);
    assert!(slots.try_acquire());
    assert!(!slots.try_acquire());
    assert!(slots.release());
    assert!(slots.release());
    assert!(!slots.release());
    assert_eq!(slots.in_use(), 0);
}

#[test]
fn no_slot_without_a_limit() {
    let mut slots = EncoderSlots::new(0);
    assert!(!slots.try_acquire());
    assert_eq!(slots.in_use(), 0);
}
