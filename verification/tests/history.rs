//! Commits, undo and branches.

use ecad_core::boot;
use ecad_core::doc::Doc;
use ecad_core::history::History;

fn at(rev: u64) -> Doc {
    let mut d = Doc::default();
    d.conn_rev = rev;
    d
}

#[test]
fn undo_returns_to_the_parent() {
    let mut h = History::new(at(0));
    assert_eq!(h.next_tick(), 1);
    assert_eq!(h.commit::<String>(Ok(at(1)), "one"), Ok(1));
    assert_eq!(h.commit::<String>(Ok(at(2)), "two"), Ok(2));
    assert_eq!(h.doc().conn_rev, 2);
    assert!(h.undo());
    assert_eq!(h.doc().conn_rev, 1);
    assert!(h.undo());
    assert!(!h.undo());
    assert_eq!(h.doc().conn_rev, 0);
}

#[test]
fn a_failed_commit_changes_nothing_but_the_tick() {
    let mut h = History::new(at(0));
    h.commit::<String>(Ok(at(1)), "one").unwrap();
    assert_eq!(h.commit(Err("no such part"), "two"), Err("no such part"));
    assert_eq!((h.head, h.versions.len()), (1, 2));
    assert_eq!(h.doc().conn_rev, 1);
    assert_eq!(h.next_tick(), 3);
}

#[test]
fn a_commit_from_an_older_version_branches() {
    let mut h = History::new(at(0));
    h.commit::<String>(Ok(at(1)), "one").unwrap();
    h.checkout(0);
    assert_eq!(h.commit::<String>(Ok(at(9)), "other"), Ok(2));
    assert_eq!(h.versions[2].parent, Some(0));
    assert_eq!(h.versions[1].doc.conn_rev, 1);
    assert_eq!(h.versions[0].label, "root");
    assert!(h.undo());
    assert_eq!(h.head, 0);
}

#[test]
fn booting_gives_the_elaborated_document() {
    assert_eq!(boot::<String>(Ok(at(4))), Ok(at(4)));
    assert_eq!(boot(Err("unknown part")), Err("unknown part"));
}
