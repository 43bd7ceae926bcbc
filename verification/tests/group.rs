use std::cell::RefCell;
use std::collections::hash_map::RandomState;
use std::rc::Rc;

use redo::group::{Group, GroupBuilder};
use redo::record::Record;
use redo::{Command, Signal};

#[derive(Debug)]
struct Add(char);

impl Command for Add {
    type Target = String;
    type Error = &'static str;

    fn apply(&mut self, s: &mut String) -> Result<(), &'static str> {
        s.push(self.0);
        Ok(())
    }

    fn undo(&mut self, s: &mut String) -> Result<(), &'static str> {
        self.0 = s.pop().ok_or("`s` is empty")?;
        Ok(())
    }
}

impl std::fmt::Display for Add {
    fn fmt(&self, f: &mut std::fmt::Formatter) -> std::fmt::Result {
        f.write_str(&format!("Add '{}'", self.0))
    }
}

type Rec = Record<Add, fn(Signal)>;
type Grp = Group<&'static str, Add, fn(Signal), fn(Option<&&'static str>), RandomState>;

#[test]
fn group_insert_set_and_apply() {
    let mut group = Grp::new();
    assert!(group.is_empty());
    assert!(group.insert("a", Rec::default()).is_none());
    assert!(group.insert("b", Rec::default()).is_none());
    assert_eq!(group.len(), 2);
    assert!(group.capacity() >= 2);
    assert!(group.get().is_none());
    assert!(group.apply(Add('x')).is_none());
    assert_eq!(group.set("c"), Some("c"));
    assert_eq!(group.set("a"), None);
    group.apply(Add('x')).unwrap().unwrap();
    group.apply(Add('y')).unwrap().unwrap();
    assert_eq!(group.get().unwrap().target(), "xy");
    group.undo().unwrap().unwrap();
    assert_eq!(group.get().unwrap().target(), "x");
    assert_eq!(group.is_saved(), Some(false));
    group.set_saved().unwrap();
    assert_eq!(group.is_saved(), Some(true));
    group.set_unsaved().unwrap();
    assert_eq!(group.is_saved(), Some(false));
    group.redo().unwrap().unwrap();
    assert_eq!(group.get().unwrap().target(), "xy");
    assert_eq!(group.to_undo_string(), Some(String::from("Add 'y'")));
    assert_eq!(group.to_redo_string(), None);
    assert_eq!(group.set("b"), None);
    assert_eq!(group.get().unwrap().target(), "");
    assert_eq!(group.records().len(), 2);
    group.unset();
    assert!(group.get().is_none());
    assert!(group.is_saved().is_none());
    let removed = group.remove(&"a").unwrap();
    assert_eq!(removed.target(), "xy");
    assert_eq!(group.len(), 1);
}

#[test]
fn group_get_mut_changes_active_record() {
    let mut group = Grp::default();
    group.insert("a", Rec::default());
    group.set("a");
    group.get_mut().unwrap().apply(Add('q')).unwrap();
    assert_eq!(group.get().unwrap().target(), "q");
}

#[test]
fn group_builder_signals() {
    let seen: Rc<RefCell<Vec<Option<u32>>>> = Rc::new(RefCell::new(Vec::new()));
    let log = seen.clone();
    let builder: GroupBuilder<u32, Add, fn(Signal), _, RandomState> = Group::builder();
    let mut group = builder
        .capacity(4)
        .signals(move |k: Option<&u32>| log.borrow_mut().push(k.copied()))
        .build();
    group.insert(1, Rec::default());
    group.insert(2, Rec::default());
    group.set(1);
    group.set(2);
    group.set(2);
    group.unset();
    assert_eq!(*seen.borrow(), vec![Some(1), Some(2), None]);
}

#[test]
fn group_lines_mark_the_active_record() {
    let mut group = Grp::new();
    group.insert("a", Rec::default());
    group.insert("b", Rec::default());
    group.set("b");
    let mut lines: Vec<(&str, bool)> = group.lines().into_iter().map(|(k, _, active)| (*k, active)).collect();
    lines.sort();
    assert_eq!(lines, vec![("a", false), ("b", true)]);
}
