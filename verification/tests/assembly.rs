use haproxy_autoconf::config::{Config, Fragment, sort_fragments};
use haproxy_autoconf::fsext::{FileExtensionPattern, FilePattern};

fn frag(path: &str, name: &str, data: &[u8]) -> Fragment {
    Fragment { path: path.as_bytes().to_vec(), name: name.as_bytes().to_vec(), data: data.to_vec() }
}

fn cfg() -> Config<FileExtensionPattern> {
    Config::new(
        String::from("/etc/frags"),
        String::from("/etc/out.cfg"),
        FileExtensionPattern::new(b".cfg".to_vec()),
    )
}

#[test]
fn scenario_two_fragments_in_canonical_order() {
    let c = cfg();
    let out = c.assemble(vec![
        frag("/etc/frags/01-frontend.cfg", "01-frontend.cfg", b"frontend\n"),
        frag("/etc/frags/02-backend.cfg", "02-backend.cfg", b"backend\n"),
    ]);
    assert_eq!(out, b"frontend\nbackend\n".to_vec());
}

#[test]
fn assembly_is_idempotent() {
    let c = cfg();
    let snapshot = || {
        vec![
            frag("/etc/frags/a.cfg", "a.cfg", b"alpha\n"),
            frag("/etc/frags/b.cfg", "b.cfg", b"beta\n"),
        ]
    };
    let first = c.assemble(snapshot());
    let second = c.assemble(snapshot());
    assert_eq!(first, second);
}

#[test]
fn assembly_order_is_canonical_not_listing() {
    let c = cfg();
    // listed in reverse of canonical-path order
    let out = c.assemble(vec![
        frag("/etc/frags/02-backend.cfg", "02-backend.cfg", b"backend\n"),
        frag("/etc/frags/01-frontend.cfg", "01-frontend.cfg", b"frontend\n"),
    ]);
    assert_eq!(out, b"frontend\nbackend\n".to_vec());
}

#[test]
fn assembly_is_listing_order_independent() {
    let c = cfg();
    let a = || frag("/etc/frags/x.cfg", "x.cfg", b"x\n");
    let b = || frag("/etc/frags/y.cfg", "y.cfg", b"y\n");
    let d = || frag("/etc/frags/z.cfg", "z.cfg", b"z\n");
    let out1 = c.assemble(vec![a(), b(), d()]);
    let out2 = c.assemble(vec![d(), a(), b()]);
    assert_eq!(out1, out2);
}

#[test]
fn nonmatching_file_is_excluded() {
    let c = cfg();
    let with_junk = c.assemble(vec![
        frag("/etc/frags/a.cfg", "a.cfg", b"alpha\n"),
        frag("/etc/frags/readme.txt", "readme.txt", b"do not include\n"),
    ]);
    let without = c.assemble(vec![frag("/etc/frags/a.cfg", "a.cfg", b"alpha\n")]);
    assert_eq!(with_junk, without);
    assert_eq!(with_junk, b"alpha\n".to_vec());
}

#[test]
fn empty_snapshot_assembles_empty() {
    let c = cfg();
    assert_eq!(c.assemble(Vec::new()), Vec::<u8>::new());
}

#[test]
fn sort_fragments_orders_by_path() {
    let sorted = sort_fragments(vec![
        frag("/etc/frags/b.cfg", "b.cfg", b"2"),
        frag("/etc/frags/a.cfg", "a.cfg", b"1"),
        frag("/etc/frags/c.cfg", "c.cfg", b"3"),
    ]);
    let paths: Vec<Vec<u8>> = sorted.into_iter().map(|f| f.path).collect();
    assert_eq!(
        paths,
        vec![
            b"/etc/frags/a.cfg".to_vec(),
            b"/etc/frags/b.cfg".to_vec(),
            b"/etc/frags/c.cfg".to_vec(),
        ]
    );
}

#[test]
fn extension_pattern_matches_suffix_only() {
    let p = FileExtensionPattern::new(b".cfg".to_vec());
    assert!(p.matches(b"site.cfg"));
    assert!(p.matches(b".cfg"));
    assert!(!p.matches(b"cfg"));
    assert!(!p.matches(b"site.cfg.bak"));
    assert!(!p.matches(b"site.txt"));
    assert!(!p.matches(b""));
}
