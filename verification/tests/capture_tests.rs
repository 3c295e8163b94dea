use yoinker::capture::{capture_image, capture_text, next_backoff, watch_start, watch_step, WatchAction, WatchEvent};
use yoinker::clock::{relative_time_ago_at, relative_time_at};
use yoinker::entry::EntryContent;

#[test]
fn capture_rules() {
    assert_eq!(capture_text("".into(), 0), None);
    assert_eq!(capture_text("abc".into(), 0), Some(EntryContent::Text { text: "abc".into() }));
    assert_eq!(capture_text("abc".into(), 3), Some(EntryContent::Text { text: "abc".into() }));
    assert_eq!(capture_text("abcd".into(), 3), None);
    assert_eq!(capture_text("ñ".into(), 1), None);
    assert_eq!(capture_image(1, 1, vec![], 0), None);
    assert_eq!(
        capture_image(2, 1, vec![1, 2], 2),
        Some(EntryContent::Image { width: 2, height: 1, bytes: vec![1, 2] })
    );
    assert_eq!(capture_image(2, 1, vec![1, 2, 3], 2), None);
}

#[test]
fn backoff_doubles_up_to_a_minute() {
    assert_eq!(next_backoff(1), 2);
    assert_eq!(next_backoff(16), 32);
    assert_eq!(next_backoff(32), 60);
    assert_eq!(next_backoff(60), 60);
}

#[test]
fn relative_time_units() {
    assert_eq!(relative_time_at(1000, 1000), "0s");
    assert_eq!(relative_time_at(1059, 1000), "59s");
    assert_eq!(relative_time_at(1060, 1000), "1m");
    assert_eq!(relative_time_at(1000 + 3599, 1000), "59m");
    assert_eq!(relative_time_at(1000 + 7200, 1000), "2h");
    assert_eq!(relative_time_at(1000 + 86400 * 3, 1000), "3d");
    assert_eq!(relative_time_at(5, 10), "0s");
    assert_eq!(relative_time_ago_at(130, 10), "2m ago");
}

#[test]
fn watcher_reconnects_with_doubling_backoff() {
    let (mut b, a) = watch_start();
    assert_eq!(b, 1);
    assert!(matches!(a, WatchAction::Connect));
    let mut waits = Vec::new();
    for _ in 0..8 {
        let (nb, a) = watch_step(b, WatchEvent::ConnectFailed, 0);
        match a {
            WatchAction::RetryAfter(s) => waits.push(s),
            _ => panic!("expected a retry"),
        }
        b = nb;
    }
    assert_eq!(waits, vec![1, 2, 4, 8, 16, 32, 60, 60]);
    let (b, a) = watch_step(b, WatchEvent::Connected, 0);
    assert_eq!(b, 1);
    assert!(matches!(a, WatchAction::Poll));
}

#[test]
fn watcher_prefers_text_then_image_then_probes() {
    let (_, a) = watch_step(1, WatchEvent::Text(Some("hi".into())), 0);
    assert!(matches!(a, WatchAction::Store(EntryContent::Text { ref text }) if text == "hi"));
    let (_, a) = watch_step(1, WatchEvent::Text(Some("".into())), 0);
    assert!(matches!(a, WatchAction::ReadImage));
    let (_, a) = watch_step(1, WatchEvent::Text(Some("too long".into())), 3);
    assert!(matches!(a, WatchAction::ReadImage));
    let (_, a) = watch_step(1, WatchEvent::Text(None), 0);
    assert!(matches!(a, WatchAction::ReadImage));
    let (_, a) = watch_step(1, WatchEvent::Image(Some((2, 1, vec![1, 2, 3, 4, 5, 6, 7, 8]))), 0);
    assert!(matches!(a, WatchAction::Store(EntryContent::Image { width: 2, height: 1, .. })));
    let (_, a) = watch_step(1, WatchEvent::Image(Some((1, 1, vec![]))), 0);
    assert!(matches!(a, WatchAction::Probe));
    let (_, a) = watch_step(1, WatchEvent::Image(None), 0);
    assert!(matches!(a, WatchAction::Probe));
    let (b, a) = watch_step(4, WatchEvent::Probe { text_ok: false, image_ok: false }, 0);
    assert_eq!(b, 4);
    assert!(matches!(a, WatchAction::Connect));
    let (_, a) = watch_step(4, WatchEvent::Probe { text_ok: true, image_ok: true }, 0);
    assert!(matches!(a, WatchAction::Poll));
    let (_, a) = watch_step(4, WatchEvent::Probe { text_ok: false, image_ok: true }, 0);
    assert!(matches!(a, WatchAction::Poll));
    let (b, a) = watch_step(4, WatchEvent::Stored, 0);
    assert_eq!(b, 4);
    assert!(matches!(a, WatchAction::Poll));
}
