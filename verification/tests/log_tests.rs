use hermes_os::log_rotator::{LogRotator, RecentLines, RotationStep};
use hermes_os::logs::{get_logs, log_file_name, max_log_lines, tail_of};
use hermes_os::paths::{Anchor, HermesPath};

fn rotator(kept: usize, mb: usize) -> LogRotator {
    LogRotator::new(HermesPath::from(Anchor::Given("/l".to_string())), kept, mb)
}

#[test]
fn a_full_log_is_put_away() {
    let r = rotator(3, 1);
    assert!(r.rotate_if_needed(None).is_empty());
    assert!(r.rotate_if_needed(Some(1048575)).is_empty());
    assert_eq!(
        r.rotate_if_needed(Some(1048576)),
        vec![
            RotationStep::Remove(3),
            RotationStep::Move(2, 3),
            RotationStep::Move(1, 2),
            RotationStep::Move(0, 1),
        ]
    );
    assert_eq!(
        rotator(0, 1).rotate_if_needed(Some(u64::MAX)),
        vec![RotationStep::Remove(1), RotationStep::Move(0, 1)]
    );
    assert!(rotator(3, 0).rotate_if_needed(Some(u64::MAX)).is_empty());
    assert!(rotator(3, usize::MAX).rotate_if_needed(Some(u64::MAX - 1)).is_empty());
    assert_eq!(rotator(3, usize::MAX).rotate_if_needed(Some(u64::MAX)).len(), 4);
}

#[test]
fn putting_away_moves_every_file_one_place_on() {
    let mut files = vec![Some("active"), Some("one"), None, Some("three"), Some("outside")];
    for step in rotator(3, 1).rotate_if_needed(Some(2097152)) {
        match step {
            RotationStep::Remove(n) => files[n] = None,
            RotationStep::Move(a, b) => {
                if files[a].is_some() {
                    files[b] = files[a].take();
                }
            }
        }
    }
    assert_eq!(files, vec![None, Some("active"), Some("one"), None, Some("outside")]);
}

#[test]
fn lines_are_appended() {
    let (steps, text) = rotator(2, 1).write_line(Some(5), "hello");
    assert!(steps.is_empty());
    assert_eq!(text, "hello\n");
    let (steps, _) = rotator(2, 1).write_line(Some(9999999), "x");
    assert_eq!(steps.len(), 3);
    assert_eq!(rotator(2, 1).active_path().names, vec!["sidecar_stderr.log"]);
    assert_eq!(rotator(2, 1).rotated_path(12).names, vec!["sidecar_stderr.log.12"]);
    assert_eq!(rotator(2, 1).rotated_path(0).names, vec!["sidecar_stderr.log.0"]);
}

#[test]
fn the_last_lines_are_read() {
    let r = rotator(1, 1);
    let lines = || Some(vec!["a".to_string(), "b".to_string(), "c".to_string()]);
    assert_eq!(r.read_recent(2, lines()), vec!["b", "c"]);
    assert_eq!(r.read_recent(5, lines()), vec!["a", "b", "c"]);
    assert!(r.read_recent(0, lines()).is_empty());
    assert!(r.read_recent(5, None).is_empty());
    let mut recent = RecentLines::new();
    recent.push("x".to_string(), 1);
    recent.push("y".to_string(), 1);
    recent.push("z".to_string(), 0);
    assert_eq!(recent.into_vec(), vec!["z"]);
}

#[test]
fn logs_are_shown_from_their_end() {
    let shown = get_logs(None, Some(2), Some(Ok("a\r\nb\nc".to_string()))).unwrap();
    assert_eq!(shown.file, "agent.log");
    assert_eq!(shown.lines, vec!["b", "c"]);
    let shown = get_logs(Some("x.log".to_string()), None, None).unwrap();
    assert_eq!(shown.file, "x.log");
    assert!(shown.lines.is_empty());
    assert_eq!(
        get_logs(None, None, Some(Err("io".to_string()))),
        Err("Could not read log: io".to_string())
    );
    assert_eq!(log_file_name(None), "agent.log");
    assert_eq!(max_log_lines(None), 200);
    assert_eq!(max_log_lines(Some(0)), 0);
    assert!(tail_of("a\nb", 0).is_empty());
    assert_eq!(tail_of("a\nb", 9), vec!["a", "b"]);
}
