use haproxy_autoconf::child::ChildCommand;
use haproxy_autoconf::dispatch::{dispatch, Event, Reaction, EXIT_CHILD_DEATH, EXIT_SIGNAL};

#[test]
fn dispatch_rules() {
    assert_eq!(dispatch(Event::Directory), Reaction::Reload);
    assert_eq!(dispatch(Event::Signal), Reaction::Exit(EXIT_SIGNAL));
    assert_eq!(dispatch(Event::Child), Reaction::Exit(EXIT_CHILD_DEATH));
}

#[test]
fn exit_codes_are_distinct() {
    assert_eq!(dispatch(Event::Signal), Reaction::Exit(0));
    assert_eq!(dispatch(Event::Child), Reaction::Exit(1));
    assert_ne!(dispatch(Event::Signal), dispatch(Event::Child));
}

#[test]
fn event_channel_carries_events() {
    let (tx, rx) = Event::make_channels();
    tx.send(Event::Directory).unwrap();
    tx.send(Event::Signal).unwrap();
    drop(tx);
    assert_eq!(rx.recv().unwrap(), Event::Directory);
    assert_eq!(rx.recv().unwrap(), Event::Signal);
    assert!(rx.recv().is_err());
}

#[test]
fn child_command_is_stable_across_restarts() {
    let cmd = ChildCommand::new(
        String::from("/usr/local/sbin/haproxy"),
        vec![String::from("-f"), String::from("/usr/local/etc/haproxy/haproxy.cfg")],
    );
    // every spawn and respawn reads the same recorded command line
    let first = (cmd.binary().clone(), cmd.args().clone());
    let second = (cmd.binary().clone(), cmd.args().clone());
    assert_eq!(first, second);
    assert_eq!(cmd.binary().as_str(), "/usr/local/sbin/haproxy");
    assert_eq!(cmd.args().len(), 2);
    assert_eq!(cmd.args()[0].as_str(), "-f");
    assert_eq!(cmd.args()[1].as_str(), "/usr/local/etc/haproxy/haproxy.cfg");
}
