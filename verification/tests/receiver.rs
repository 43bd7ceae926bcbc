use std::cell::RefCell;
use std::rc::Rc;

use redo::receiver::Record;
use redo::Command;

#[derive(Debug)]
struct Add(char);

impl Command for Add {
    type Target = String;
    type Error = &'static str;

    fn apply(&mut self, s: &mut String) -> Result<(), &'static str> {
        s.push(self.0);
        Ok(())
    }

    fn undo(&mut self, s: &mut String) -> Result<(), &'static str> {
        self.0 = s.pop().ok_or("`s` is empty")?;
        Ok(())
    }
}

#[test]
fn receiver_push_undo_redo() {
    let mut record = Record::<Add, fn(bool)>::new(String::new());
    assert!(record.is_empty());
    assert!(record.push(Add('a')).unwrap().len() == 0);
    record.push(Add('b')).unwrap();
    record.push(Add('c')).unwrap();
    assert_eq!(record.len(), 3);
    assert!(record.is_clean());
    record.undo().unwrap();
    record.undo().unwrap();
    assert!(record.is_dirty());
    assert_eq!(record.as_receiver(), "a");
    record.redo().unwrap();
    assert_eq!(record.as_receiver(), "ab");
    let mut cut = record.push(Add('d')).unwrap();
    assert_eq!(cut.len(), 1);
    assert_eq!(cut.next().unwrap().0, 'c');
    assert!(cut.next().is_none());
    assert!(record.is_clean());
    assert_eq!(record.into_receiver(), "abd");
}

#[test]
fn receiver_limit_and_state_change() {
    let seen: Rc<RefCell<Vec<bool>>> = Rc::new(RefCell::new(Vec::new()));
    let log = seen.clone();
    let mut record = Record::config(String::new())
        .capacity(4)
        .limit(2)
        .state_change(move |clean: bool| log.borrow_mut().push(clean))
        .finish();
    record.push(Add('a')).unwrap();
    record.push(Add('b')).unwrap();
    record.push(Add('c')).unwrap();
    assert_eq!(record.len(), 2);
    assert_eq!(record.as_receiver(), "abc");
    record.undo().unwrap();
    record.undo().unwrap();
    record.undo().unwrap();
    assert_eq!(record.as_receiver(), "a");
    record.redo().unwrap();
    record.redo().unwrap();
    assert_eq!(record.as_receiver(), "abc");
    assert_eq!(*seen.borrow(), vec![false, true]);
}

#[test]
fn pushing_a_redone_outcome() {
    let mut record = Record::<Add, fn(bool)>::new(String::new());
    let (cmd, e) = match record.push_redone(Add('a'), Err("refused")) {
        Err(pair) => pair,
        Ok(_) => panic!("the outcome was a failure"),
    };
    assert_eq!((cmd.0, e), ('a', "refused"));
    assert!(record.is_empty());
    assert_eq!(record.push_redone(Add('b'), Ok(())).unwrap().len(), 0);
    assert_eq!(record.len(), 1);
    assert!(record.is_clean());
}

#[test]
fn finishing_a_receiver_undo_or_redo() {
    let mut record = Record::<Add, fn(bool)>::new(String::new());
    record.push(Add('a')).unwrap();
    record.push(Add('b')).unwrap();
    record.undo().unwrap();
    assert_eq!(record.redone(Err("refused")), Err("refused"));
    assert!(record.is_dirty());
    assert_eq!(record.undone(true, Err("refused")), Err("refused"));
    record.undone(false, Ok(())).unwrap();
    assert!(record.is_dirty());
    record.redone(Ok(())).unwrap();
    assert!(record.is_clean());
}

#[test]
fn receiver_capacity_and_merge_outcomes() {
    let mut record = Record::<Add, fn(bool)>::config(String::new()).capacity(4).limit(2).finish();
    assert!(record.capacity() >= 4 || record.capacity() >= record.len());
    record.settle_merge(redo::Merge::No(Add('a')));
    record.settle_merge(redo::Merge::No(Add('b')));
    record.settle_merge(redo::Merge::No(Add('c')));
    assert_eq!(record.len(), 2);
    assert!(record.is_clean());
    record.settle_merge(redo::Merge::Annul);
    assert_eq!(record.len(), 1);
    record.settle_merge(redo::Merge::Yes);
    assert_eq!(record.len(), 1);
}
