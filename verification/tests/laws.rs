use std::cell::RefCell;
use std::rc::Rc;

use redo::history::History;
use redo::record::{Builder, Record};
use redo::{Command, Merge, Signal, Timestamp};

/// Pushes a character; a `'-'` annuls the command before it, and two
/// commands of the same character merge.
#[derive(Debug)]
struct Add(char, usize);

impl Command for Add {
    type Target = String;
    type Error = &'static str;

    fn apply(&mut self, s: &mut String) -> Result<(), &'static str> {
        match self.0 {
            '!' => Err("refused"),
            '-' => Ok(()),
            c => {
                s.push(c);
                Ok(())
            }
        }
    }

    fn undo(&mut self, s: &mut String) -> Result<(), &'static str> {
        for _ in 0..self.1 {
            s.pop().ok_or("`s` is empty")?;
        }
        Ok(())
    }

    fn merge(&mut self, command: Self) -> Merge<Self> {
        if command.0 == '-' {
            Merge::Annul
        } else if command.0 == self.0 && self.0 != 'x' {
            self.1 += command.1;
            Merge::Yes
        } else {
            Merge::No(command)
        }
    }
}

impl std::fmt::Display for Add {
    fn fmt(&self, f: &mut std::fmt::Formatter) -> std::fmt::Result {
        f.write_str(&format!("{}x{}", self.0, self.1))
    }
}

type Rec = Record<Add, fn(Signal)>;
type Hist = History<Add, fn(Signal)>;

#[test]
fn undo_then_redo_restores_the_position() {
    let mut record = Rec::default();
    record.apply(Add('a', 1)).unwrap();
    record.apply(Add('b', 1)).unwrap();
    record.set_saved(true);
    record.undo().unwrap();
    assert_eq!(record.current(), 1);
    assert!(!record.is_saved());
    record.redo().unwrap();
    assert_eq!(record.current(), 2);
    assert_eq!(record.len(), 2);
    assert!(record.is_saved());
    assert_eq!(record.target(), "ab");
}

#[test]
fn history_undo_then_redo_restores_the_position() {
    let mut history = Hist::default();
    history.apply(Add('a', 1)).unwrap();
    history.apply(Add('x', 1)).unwrap();
    history.undo().unwrap();
    history.apply(Add('c', 1)).unwrap();
    let branch = history.branch();
    history.undo().unwrap();
    history.redo().unwrap();
    assert_eq!(history.branch(), branch);
    assert_eq!(history.current(), 2);
    assert_eq!(history.target(), "ac");
}

#[test]
fn apply_leaves_nothing_to_redo() {
    let mut record = Rec::default();
    record.apply(Add('a', 1)).unwrap();
    record.apply(Add('b', 1)).unwrap();
    record.undo().unwrap();
    assert!(record.can_redo());
    record.apply(Add('c', 1)).unwrap();
    assert!(!record.can_redo());
    assert_eq!(record.len(), 2);
    assert_eq!(record.target(), "ac");
}

#[test]
fn limit_drops_the_oldest_command() {
    let mut record: Rec = Builder::new().limit(2).capacity(4).build(String::new());
    assert_eq!(record.limit(), 2);
    assert!(record.capacity() >= 0);
    record.apply(Add('a', 1)).unwrap();
    record.apply(Add('x', 1)).unwrap();
    record.apply(Add('c', 1)).unwrap();
    assert_eq!(record.len(), 2);
    assert_eq!(record.current(), 2);
    record.undo().unwrap();
    record.undo().unwrap();
    assert!(!record.can_undo());
    assert_eq!(record.target(), "a");
    // The saved position was at the start, which was dropped.
    assert!(!record.is_saved());
}

#[test]
fn merge_and_annul() {
    let mut record: Rec = Builder::new().saved(false).build(String::new());
    record.apply(Add('a', 1)).unwrap();
    record.apply(Add('a', 1)).unwrap();
    assert_eq!(record.len(), 1);
    assert_eq!(record.target(), "aa");
    record.apply(Add('-', 0)).unwrap();
    assert_eq!(record.len(), 0);
    assert_eq!(record.current(), 0);
}

#[test]
fn saved_state_blocks_merging() {
    let mut record = Rec::default();
    record.apply(Add('a', 1)).unwrap();
    record.set_saved(true);
    record.apply(Add('a', 1)).unwrap();
    assert_eq!(record.len(), 2);
}

#[test]
fn failing_apply_changes_nothing() {
    let mut record = Rec::default();
    record.apply(Add('a', 1)).unwrap();
    record.apply(Add('b', 1)).unwrap();
    record.undo().unwrap();
    assert_eq!(record.apply(Add('!', 1)), Err("refused"));
    assert_eq!(record.len(), 2);
    assert_eq!(record.current(), 1);
    assert!(record.can_redo());
}

#[test]
fn failing_undo_keeps_the_position() {
    let mut record = Rec::default();
    record.apply(Add('a', 1)).unwrap();
    record.target_mut().clear();
    assert_eq!(record.undo(), Err("`s` is empty"));
    assert_eq!(record.current(), 1);
}

#[test]
fn set_saved_and_revert() {
    let mut record = Rec::default();
    assert!(record.is_saved());
    record.apply(Add('a', 1)).unwrap();
    record.apply(Add('b', 1)).unwrap();
    assert!(!record.is_saved());
    record.set_saved(true);
    assert!(record.is_saved());
    record.undo().unwrap();
    record.undo().unwrap();
    assert_eq!(record.target(), "");
    record.revert().unwrap().unwrap();
    assert!(record.is_saved());
    assert_eq!(record.target(), "ab");
    record.set_saved(false);
    assert!(!record.is_saved());
    assert!(record.revert().is_none());
}

#[test]
fn cancel_restores_an_applied_command() {
    let mut record = Rec::default();
    record.apply(Add('a', 1)).unwrap();
    let mut cp = record.checkpoint();
    cp.apply(Add('b', 1)).unwrap();
    cp.cancel().unwrap();
    assert_eq!(record.len(), 1);
    assert_eq!(record.current(), 1);
    assert_eq!(record.target(), "a");

    let mut history = Hist::default();
    history.apply(Add('a', 1)).unwrap();
    let mut cp = history.checkpoint();
    cp.apply(Add('b', 1)).unwrap();
    cp.cancel().unwrap();
    assert_eq!(history.len(), 1);
    assert_eq!(history.current(), 1);
    assert_eq!(history.target(), "a");
}

#[test]
fn time_travel_to_the_ends() {
    let mut record = Rec::default();
    assert!(record.time_travel(&Timestamp { secs: 0, nanos: 0 }).is_none());
    record.apply(Add('a', 1)).unwrap();
    record.apply(Add('b', 1)).unwrap();
    record.time_travel(&Timestamp { secs: i64::MIN, nanos: 0 }).unwrap().unwrap();
    assert_eq!(record.current(), 0);
    assert_eq!(record.target(), "");
    record.time_travel(&Timestamp { secs: i64::MAX, nanos: 0 }).unwrap().unwrap();
    assert_eq!(record.current(), 2);
    assert_eq!(record.target(), "ab");

    let mut history = Hist::default();
    history.apply(Add('a', 1)).unwrap();
    history.time_travel(&Timestamp { secs: i64::MIN, nanos: 0 }).unwrap().unwrap();
    assert_eq!(history.target(), "");
}

#[test]
fn timestamps_are_ordered() {
    let earlier = Timestamp { secs: 5, nanos: 10 };
    let later = Timestamp { secs: 5, nanos: 11 };
    assert!(earlier.is_before(&later));
    assert!(!later.is_before(&earlier));
    assert!(!later.is_before(&later));
    assert!(Timestamp::now().nanos < 2_000_000_000);
}

#[test]
fn slot_receives_signals() {
    let seen: Rc<RefCell<Vec<Signal>>> = Rc::new(RefCell::new(Vec::new()));
    let log = seen.clone();
    let mut record = Builder::new().build_with(String::new(), move |s: Signal| log.borrow_mut().push(s));
    record.apply(Add('a', 1)).unwrap();
    record.undo().unwrap();
    record.redo().unwrap();
    assert!(record.disconnect().is_some());
    record.undo().unwrap();
    assert_eq!(
        *seen.borrow(),
        vec![
            Signal::Undo(true),
            Signal::Saved(false),
            Signal::Redo(true),
            Signal::Undo(false),
            Signal::Saved(true),
            Signal::Redo(false),
            Signal::Undo(true),
            Signal::Saved(false),
        ]
    );
}

#[test]
fn undo_and_redo_text() {
    let mut record = Rec::default();
    assert_eq!(record.undo_text(), None);
    record.apply(Add('a', 1)).unwrap();
    assert_eq!(record.undo_text(), Some(String::from("ax1")));
    assert_eq!(record.redo_text(), None);
    record.undo().unwrap();
    assert_eq!(record.redo_text(), Some(String::from("ax1")));
    let mut history = Hist::default();
    history.apply(Add('q', 1)).unwrap();
    assert_eq!(history.undo_text(), Some(String::from("qx1")));
    assert_eq!(history.redo_text(), None);
}

#[test]
fn clear_and_into_target() {
    let mut record = Rec::default();
    record.apply(Add('a', 1)).unwrap();
    record.clear();
    assert!(record.is_empty());
    assert!(!record.can_undo());
    assert!(!record.is_saved());
    record.reserve(3);
    record.shrink_to_fit();
    assert_eq!(record.into_target(), "a");
}

#[test]
fn parts_round_trip() {
    let mut record = Rec::default();
    record.apply(Add('a', 1)).unwrap();
    record.apply(Add('b', 1)).unwrap();
    record.undo().unwrap();
    assert!(record.is_well_formed());
    let (entries, target, current, limit, saved) = record.into_parts();
    assert_eq!(entries.len(), 2);
    assert_eq!(target, "a");
    assert_eq!((current, limit, saved), (1, usize::MAX, Some(0)));
    assert!(Rec::from_parts(Vec::new(), String::new(), 1, 4, None).is_none());
    assert!(Rec::from_parts(Vec::new(), String::new(), 0, 0, None).is_none());
    let mut record = Rec::from_parts(entries, target, current, limit, saved).unwrap();
    record.redo().unwrap();
    assert_eq!(record.target(), "ab");

    let mut history = Hist::default();
    history.apply(Add('a', 1)).unwrap();
    history.undo().unwrap();
    history.apply(Add('x', 1)).unwrap();
    let (root, elsewhere, record, branches) = history.into_parts();
    assert_eq!(root, 1);
    assert_eq!(branches.len(), 2);
    assert!(branches[0].is_some());
    assert!(Hist::from_parts(0, elsewhere, Rec::default(), Vec::new()).is_none());
    let mut history = Hist::from_parts(root, elsewhere, record, branches).unwrap();
    history.go_to(0, 1).unwrap().unwrap();
    assert_eq!(history.target(), "a");
}

#[test]
fn recording_an_outcome() {
    let mut record = Rec::default();
    assert_eq!(record.record_applied(Add('a', 1), Err("refused")).err(), Some("refused"));
    assert!(record.is_empty());
    let (merged, tail) = record.record_applied(Add('a', 1), Ok(())).unwrap();
    assert!(!merged);
    assert!(tail.is_empty());
    assert_eq!(record.len(), 1);
    assert_eq!(record.target(), "");

    let mut history = Hist::default();
    assert_eq!(history.record_applied(Add('a', 1), Err("refused")), Err("refused"));
    assert!(history.is_empty());
    history.record_applied(Add('b', 1), Ok(())).unwrap();
    assert_eq!(history.len(), 1);
    assert_eq!(history.current(), 1);
}

#[test]
fn finishing_an_undo_or_redo() {
    let mut record = Rec::default();
    record.apply(Add('a', 1)).unwrap();
    assert_eq!(record.record_undone(Err("refused")), Err("refused"));
    assert_eq!(record.current(), 1);
    record.record_undone(Ok(())).unwrap();
    assert_eq!(record.current(), 0);
    assert_eq!(record.record_redone(Err("refused")), Err("refused"));
    assert_eq!(record.current(), 0);
    record.record_redone(Ok(())).unwrap();
    assert_eq!(record.current(), 1);
}

#[test]
fn going_back_to_a_kept_branch() {
    let mut history = Hist::default();
    history.apply(Add('a', 1)).unwrap();
    history.apply(Add('b', 1)).unwrap();
    history.apply(Add('c', 1)).unwrap();
    let abc = history.branch();
    history.go_to(abc, 1).unwrap().unwrap();
    history.apply(Add('f', 1)).unwrap();
    history.apply(Add('g', 1)).unwrap();
    assert_eq!(history.target(), "afg");
    history.go_to(abc, 3).unwrap().unwrap();
    assert_eq!(history.target(), "abc");
    assert_eq!(history.branch(), abc);
    assert_eq!(history.current(), 3);
}

#[test]
fn go_to_where_it_stands_succeeds() {
    let mut record = Rec::default();
    record.apply(Add('a', 1)).unwrap();
    assert!(record.go_to(1).unwrap().is_ok());
    assert_eq!(record.current(), 1);
}

#[test]
fn settling_each_merge_outcome() {
    let mut record = Rec::default();
    record.apply(Add('a', 1)).unwrap();
    assert!(record.settle_merge(Merge::Yes));
    assert_eq!(record.len(), 1);
    assert!(!record.settle_merge(Merge::No(Add('b', 1))));
    assert_eq!(record.len(), 2);
    assert_eq!(record.current(), 2);
    assert_eq!(record.undo_text(), Some(String::from("bx1")));
    assert!(record.settle_merge(Merge::Annul));
    assert_eq!(record.len(), 1);
    assert_eq!(record.current(), 1);
    assert_eq!(record.undo_text(), Some(String::from("ax1")));
}

#[test]
fn cancel_restores_cut_commands_at_the_limit() {
    let mut record: Rec = Builder::new().limit(2).build(String::new());
    record.apply(Add('a', 1)).unwrap();
    record.apply(Add('x', 1)).unwrap();
    record.undo().unwrap();
    record.undo().unwrap();
    let mut cp = record.checkpoint();
    cp.apply(Add('c', 1)).unwrap();
    cp.apply(Add('d', 1)).unwrap();
    cp.apply(Add('e', 1)).unwrap();
    cp.cancel().unwrap();
    assert_eq!(record.len(), 2);
    assert_eq!(record.current(), 0);
    record.redo().unwrap();
    record.redo().unwrap();
    assert_eq!(record.target(), "cax");
}

/// Appends its text; `"m"` merges into `"a"` when it is offered.
#[derive(Debug)]
struct Word(String);

impl Command for Word {
    type Target = String;
    type Error = &'static str;

    fn apply(&mut self, s: &mut String) -> Result<(), &'static str> {
        s.push_str(&self.0);
        Ok(())
    }

    fn undo(&mut self, s: &mut String) -> Result<(), &'static str> {
        let n = s.len().checked_sub(self.0.len()).ok_or("`s` is too short")?;
        s.truncate(n);
        Ok(())
    }

    fn merge(&mut self, command: Self) -> Merge<Self> {
        if self.0 == "a" && command.0 == "m" {
            self.0.push_str("m");
            Merge::Yes
        } else {
            Merge::No(command)
        }
    }
}

#[test]
fn go_to_across_two_branches_can_stop_short_after_a_merge() {
    let mut history = History::<Word, fn(Signal)>::default();
    history.apply(Word(String::from("a"))).unwrap();
    history.set_saved(true);
    history.apply(Word(String::from("m"))).unwrap();
    history.apply(Word(String::from("x"))).unwrap();
    history.undo().unwrap();
    history.apply(Word(String::from("z"))).unwrap();
    let middle = history.branch();
    history.go_to(middle, 1).unwrap().unwrap();
    history.apply(Word(String::from("w"))).unwrap();
    history.set_saved(false);
    // Branch 0 holds "x"; it grows from the branch that holds "m", "z",
    // which grows from the current one. On the way "m" merges into "a".
    assert_eq!(history.go_to(0, 3), Some(Ok(())));
    assert_eq!(history.current(), 3);
    assert_ne!(history.branch(), 0);
}
