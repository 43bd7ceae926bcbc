use redo::record::{Builder, Record};
use redo::{Command, Merge, Signal};

#[derive(Debug)]
struct Add(char);

impl Command for Add {
    type Target = String;
    type Error = &'static str;

    fn apply(&mut self, s: &mut String) -> Result<(), &'static str> {
        s.push(self.0);
        Ok(())
    }

    fn undo(&mut self, s: &mut String) -> Result<(), &'static str> {
        self.0 = s.pop().ok_or("s is empty")?;
        Ok(())
    }
}

type Rec = Record<Add, fn(Signal)>;

#[test]
fn record_go_to() {
    let mut record = Rec::default();
    record.apply(Add('a')).unwrap();
    record.apply(Add('b')).unwrap();
    record.apply(Add('c')).unwrap();
    record.apply(Add('d')).unwrap();
    record.apply(Add('e')).unwrap();

    record.go_to(0).unwrap().unwrap();
    assert_eq!(record.current(), 0);
    assert_eq!(record.target(), "");
    record.go_to(5).unwrap().unwrap();
    assert_eq!(record.current(), 5);
    assert_eq!(record.target(), "abcde");
    record.go_to(1).unwrap().unwrap();
    assert_eq!(record.current(), 1);
    assert_eq!(record.target(), "a");
    record.go_to(4).unwrap().unwrap();
    assert_eq!(record.current(), 4);
    assert_eq!(record.target(), "abcd");
    record.go_to(2).unwrap().unwrap();
    assert_eq!(record.current(), 2);
    assert_eq!(record.target(), "ab");
    record.go_to(3).unwrap().unwrap();
    assert_eq!(record.current(), 3);
    assert_eq!(record.target(), "abc");
    assert!(record.go_to(6).is_none());
    assert_eq!(record.current(), 3);
}

#[test]
fn queue_commit() {
    let mut record = Rec::default();
    let mut q1 = record.queue();
    q1.redo();
    q1.redo();
    q1.redo();
    let mut q2 = q1.queue();
    q2.undo();
    q2.undo();
    q2.undo();
    let mut q3 = q2.queue();
    q3.apply(Add('a'));
    q3.apply(Add('b'));
    q3.apply(Add('c'));
    assert_eq!(q3.target(), "");
    q3.commit().unwrap();
    assert_eq!(q2.target(), "abc");
    q2.commit().unwrap();
    assert_eq!(q1.target(), "");
    q1.commit().unwrap();
    assert_eq!(record.target(), "abc");
}

#[test]
fn checkpoint_commit() {
    let mut record = Rec::default();
    let mut cp1 = record.checkpoint();
    cp1.apply(Add('a')).unwrap();
    cp1.apply(Add('b')).unwrap();
    cp1.apply(Add('c')).unwrap();
    assert_eq!(cp1.target(), "abc");
    let mut cp2 = cp1.checkpoint();
    cp2.apply(Add('d')).unwrap();
    cp2.apply(Add('e')).unwrap();
    cp2.apply(Add('f')).unwrap();
    assert_eq!(cp2.target(), "abcdef");
    let mut cp3 = cp2.checkpoint();
    cp3.apply(Add('g')).unwrap();
    cp3.apply(Add('h')).unwrap();
    cp3.apply(Add('i')).unwrap();
    assert_eq!(cp3.target(), "abcdefghi");
    cp3.commit();
    cp2.commit();
    cp1.commit();
    assert_eq!(record.target(), "abcdefghi");
}

#[test]
fn checkpoint_cancel() {
    let mut record = Rec::default();
    let mut cp1 = record.checkpoint();
    cp1.apply(Add('a')).unwrap();
    cp1.apply(Add('b')).unwrap();
    cp1.apply(Add('c')).unwrap();
    let mut cp2 = cp1.checkpoint();
    cp2.apply(Add('d')).unwrap();
    cp2.apply(Add('e')).unwrap();
    cp2.apply(Add('f')).unwrap();
    let mut cp3 = cp2.checkpoint();
    cp3.apply(Add('g')).unwrap();
    cp3.apply(Add('h')).unwrap();
    cp3.apply(Add('i')).unwrap();
    assert_eq!(cp3.target(), "abcdefghi");
    cp3.cancel().unwrap();
    assert_eq!(cp2.target(), "abcdef");
    cp2.cancel().unwrap();
    assert_eq!(cp1.target(), "abc");
    cp1.cancel().unwrap();
    assert_eq!(record.target(), "");
}

#[test]
fn checkpoint_saved() {
    let mut record = Rec::default();
    record.apply(Add('a')).unwrap();
    record.apply(Add('b')).unwrap();
    record.apply(Add('c')).unwrap();
    record.set_saved(true);
    record.undo().unwrap();
    record.undo().unwrap();
    record.undo().unwrap();
    let mut cp = record.checkpoint();
    cp.apply(Add('d')).unwrap();
    cp.apply(Add('e')).unwrap();
    cp.apply(Add('f')).unwrap();
    assert_eq!(cp.target(), "def");
    cp.cancel().unwrap();
    assert_eq!(record.target(), "");
    record.redo().unwrap();
    record.redo().unwrap();
    record.redo().unwrap();
    assert!(record.is_saved());
    assert_eq!(record.target(), "abc");
}
