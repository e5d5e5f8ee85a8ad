use haproxy_autoconf::config::Fragment;
use haproxy_autoconf::events::{EventSource, TickAction, tick_action};
use haproxy_autoconf::events::child::ChildEventSource;
use haproxy_autoconf::events::directory::{DirectoryEventSource, DirectoryPoller, bytes_equal, dirhash};
use haproxy_autoconf::events::signals::{SignalEventSource, take_signal_flag};
use haproxy_autoconf::fsext::FileExtensionPattern;
use sha2::{Digest, Sha512};

fn frag(path: &str, name: &str, data: &[u8]) -> Fragment {
    Fragment { path: path.as_bytes().to_vec(), name: name.as_bytes().to_vec(), data: data.to_vec() }
}

fn pat() -> FileExtensionPattern {
    FileExtensionPattern::new(b".cfg".to_vec())
}

#[test]
fn tick_rule() {
    assert_eq!(tick_action(false, false), TickAction::Stop);
    assert_eq!(tick_action(false, true), TickAction::Stop);
    assert_eq!(tick_action(true, true), TickAction::Emit);
    assert_eq!(tick_action(true, false), TickAction::Idle);
}

#[test]
fn signal_flag_is_consumed_once() {
    let mut flag = true;
    assert!(take_signal_flag(&mut flag));
    assert!(!flag);
    assert!(!take_signal_flag(&mut flag));
    assert!(!flag);
}

#[test]
fn sources_construct_and_cycle_flags() {
    let mut s = SignalEventSource::new();
    s.event_attach();
    s.event_cancel();
    s.event_detach();
    let mut c = ChildEventSource::new();
    c.event_attach();
    c.event_cancel();
    c.event_detach();
    let mut d = DirectoryEventSource::new(String::from("/etc/frags"), pat());
    assert_eq!(d.directory().as_str(), "/etc/frags");
    d.event_attach();
    d.event_cancel();
    d.event_detach();
}

#[test]
fn unchanged_directory_emits_no_event() {
    let snapshot = || {
        vec![
            frag("/etc/frags/a.cfg", "a.cfg", b"alpha\n"),
            frag("/etc/frags/b.cfg", "b.cfg", b"beta\n"),
        ]
    };
    let mut poller = DirectoryPoller::new(pat(), snapshot());
    assert_eq!(poller.tick(true, snapshot()), TickAction::Idle);
    // a second poll over the same content stays quiet too
    assert_eq!(poller.tick(true, snapshot()), TickAction::Idle);
}

#[test]
fn listing_order_does_not_disturb_the_digest() {
    let a = || frag("/etc/frags/a.cfg", "a.cfg", b"alpha\n");
    let b = || frag("/etc/frags/b.cfg", "b.cfg", b"beta\n");
    let mut poller = DirectoryPoller::new(pat(), vec![a(), b()]);
    assert_eq!(poller.tick(true, vec![b(), a()]), TickAction::Idle);
}

#[test]
fn changed_content_emits_exactly_one_event() {
    let before = || vec![frag("/etc/frags/a.cfg", "a.cfg", b"alpha\n")];
    let after = || vec![frag("/etc/frags/a.cfg", "a.cfg", b"ALPHA\n")];
    let mut poller = DirectoryPoller::new(pat(), before());
    assert_eq!(poller.tick(true, after()), TickAction::Emit);
    // the change was observed once; the new state is now the baseline
    assert_eq!(poller.tick(true, after()), TickAction::Idle);
}

#[test]
fn nonmatching_change_emits_no_event() {
    let before = || vec![frag("/etc/frags/a.cfg", "a.cfg", b"alpha\n")];
    let after = || {
        vec![
            frag("/etc/frags/a.cfg", "a.cfg", b"alpha\n"),
            frag("/etc/frags/notes.txt", "notes.txt", b"scribble\n"),
        ]
    };
    let mut poller = DirectoryPoller::new(pat(), before());
    assert_eq!(poller.tick(true, after()), TickAction::Idle);
}

#[test]
fn cancelled_poller_stops_and_emits_nothing() {
    let before = || vec![frag("/etc/frags/a.cfg", "a.cfg", b"alpha\n")];
    let after = || vec![frag("/etc/frags/a.cfg", "a.cfg", b"changed\n")];
    let mut poller = DirectoryPoller::new(pat(), before());
    // even a real change is not emitted once the source is cancelled
    assert_eq!(poller.tick(false, after()), TickAction::Stop);
}

#[test]
fn dirhash_is_sha512_of_the_framed_fragments() {
    let path = b"/etc/frags/a.cfg";
    let data = b"alpha\n";
    let mut expected_input: Vec<u8> = Vec::new();
    expected_input.extend_from_slice(path);
    expected_input.extend_from_slice(&(path.len() as u64).to_be_bytes());
    expected_input.extend_from_slice(data);
    expected_input.extend_from_slice(&(data.len() as u64).to_be_bytes());
    let expected = Sha512::digest(&expected_input).to_vec();
    let got = dirhash(&pat(), vec![frag("/etc/frags/a.cfg", "a.cfg", data)]);
    assert_eq!(got, expected);
    assert_eq!(got.len(), 64);
}

#[test]
fn bytes_equal_compares_contents() {
    assert!(bytes_equal(&vec![1u8, 2, 3], &vec![1u8, 2, 3]));
    assert!(!bytes_equal(&vec![1u8, 2, 3], &vec![1u8, 2]));
    assert!(!bytes_equal(&vec![1u8, 2, 3], &vec![1u8, 2, 4]));
    assert!(bytes_equal(&Vec::new(), &Vec::new()));
}
