use redo::history::History;
use redo::record::Record;
use redo::{Command, Signal};

#[derive(Debug)]
struct Add(char);

impl Command for Add {
    type Target = String;
    type Error = &'static str;

    fn apply(&mut self, s: &mut String) -> Result<(), &'static str> {
        s.push(self.0);
        Ok(())
    }

    fn undo(&mut self, s: &mut String) -> Result<(), &'static str> {
        self.0 = s.pop().ok_or("`s` is empty")?;
        Ok(())
    }
}

type Rec = Record<Add, fn(Signal)>;
type Hist = History<Add, fn(Signal)>;

#[test]
fn cancel() {
    let mut record = Rec::default();
    let mut cp1 = record.checkpoint();
    cp1.apply(Add('a')).unwrap();
    cp1.apply(Add('b')).unwrap();
    cp1.apply(Add('c')).unwrap();
    let mut cp2 = cp1.checkpoint();
    cp2.apply(Add('d')).unwrap();
    cp2.apply(Add('e')).unwrap();
    cp2.apply(Add('f')).unwrap();
    let mut cp3 = cp2.checkpoint();
    cp3.apply(Add('g')).unwrap();
    cp3.apply(Add('h')).unwrap();
    cp3.apply(Add('i')).unwrap();
    assert_eq!(cp3.target(), "abcdefghi");
    cp3.cancel().unwrap();
    assert_eq!(cp2.target(), "abcdef");
    cp2.cancel().unwrap();
    assert_eq!(cp1.target(), "abc");
    cp1.cancel().unwrap();
    assert_eq!(record.target(), "");
}

#[test]
fn saved() {
    let mut record = Rec::default();
    record.apply(Add('a')).unwrap();
    record.apply(Add('b')).unwrap();
    record.apply(Add('c')).unwrap();
    record.set_saved(true);
    record.undo().unwrap();
    record.undo().unwrap();
    record.undo().unwrap();
    let mut cp = record.checkpoint();
    cp.apply(Add('d')).unwrap();
    cp.apply(Add('e')).unwrap();
    cp.apply(Add('f')).unwrap();
    assert_eq!(cp.target(), "def");
    cp.cancel().unwrap();
    assert_eq!(record.target(), "");
    record.redo().unwrap();
    record.redo().unwrap();
    record.redo().unwrap();
    assert!(record.is_saved());
    assert_eq!(record.target(), "abc");
}

#[test]
fn checkpoint_go_to_and_cancel() {
    let mut record = Rec::default();
    record.apply(Add('a')).unwrap();
    record.apply(Add('b')).unwrap();
    record.apply(Add('c')).unwrap();
    let mut cp = record.checkpoint();
    assert!(cp.go_to(1).unwrap().is_ok());
    assert_eq!(cp.target(), "a");
    assert!(cp.go_to(7).is_none());
    cp.undo().unwrap();
    assert_eq!(cp.target(), "");
    assert_eq!(cp.len(), 2);
    cp.cancel().unwrap();
    assert_eq!(record.current(), 3);
    assert_eq!(record.target(), "abc");
}

#[test]
fn checkpoint_extend_and_cancel() {
    let mut record = Rec::default();
    record.apply(Add('x')).unwrap();
    let mut cp = record.checkpoint();
    assert!(cp.is_empty());
    cp.extend(vec![Add('a'), Add('b'), Add('c')]).unwrap();
    assert_eq!(cp.len(), 3);
    assert!(cp.capacity() >= 3);
    assert_eq!(cp.target(), "xabc");
    cp.redo().unwrap();
    assert_eq!(cp.len(), 3);
    cp.cancel().unwrap();
    assert_eq!(record.target(), "x");
    assert_eq!(record.len(), 1);
}

#[test]
fn checkpoint_cancel_restores_cut_commands() {
    let mut record = Rec::default();
    record.apply(Add('a')).unwrap();
    record.apply(Add('b')).unwrap();
    record.apply(Add('c')).unwrap();
    record.undo().unwrap();
    record.undo().unwrap();
    let mut cp = record.checkpoint();
    cp.apply(Add('z')).unwrap();
    assert_eq!(cp.target(), "az");
    cp.cancel().unwrap();
    assert_eq!(record.target(), "a");
    assert_eq!(record.len(), 3);
    assert_eq!(record.current(), 1);
    record.redo().unwrap();
    record.redo().unwrap();
    assert_eq!(record.target(), "abc");
}

#[test]
fn queue_extend_go_to_and_len() {
    let mut record = Rec::default();
    let mut queue = record.queue();
    queue.extend(vec![Add('a'), Add('b'), Add('c')]);
    queue.go_to(1);
    queue.redo();
    assert_eq!(queue.len(), 5);
    assert!(!queue.is_empty());
    assert!(queue.capacity() >= 5);
    queue.commit().unwrap();
    assert_eq!(record.target(), "ab");
    assert_eq!(record.current(), 2);
}

#[test]
fn queue_cancel_leaves_record() {
    let mut record = Rec::default();
    let mut queue = record.queue();
    queue.apply(Add('a'));
    queue.cancel();
    assert_eq!(record.target(), "");
    assert!(record.is_empty());
}

#[test]
fn history_checkpoint_cancel() {
    let mut history = Hist::default();
    history.apply(Add('a')).unwrap();
    history.apply(Add('b')).unwrap();
    let mut cp = history.checkpoint();
    cp.apply(Add('c')).unwrap();
    cp.undo().unwrap();
    cp.undo().unwrap();
    cp.apply(Add('d')).unwrap();
    assert_eq!(cp.target(), "ad");
    cp.cancel().unwrap();
    assert_eq!(history.target(), "ab");
    assert_eq!(history.current(), 2);
}

#[test]
fn history_checkpoint_extend_commit() {
    let mut history = Hist::default();
    let mut cp = history.checkpoint();
    cp.extend(vec![Add('a'), Add('b')]).unwrap();
    assert_eq!(cp.len(), 2);
    cp.commit();
    assert_eq!(history.target(), "ab");
    assert_eq!(history.len(), 2);
}

#[test]
fn history_queue_go_to() {
    let mut history = Hist::default();
    history.apply(Add('a')).unwrap();
    history.apply(Add('b')).unwrap();
    let branch = history.branch();
    let mut queue = history.queue();
    queue.go_to(branch, 0);
    queue.extend(vec![Add('x')]);
    assert_eq!(queue.len(), 2);
    queue.commit().unwrap();
    assert_eq!(history.target(), "x");
}

#[test]
fn queue_and_checkpoint_new() {
    let mut record = Rec::default();
    let mut queue = redo::record::Queue::new(&mut record);
    queue.apply(Add('a'));
    queue.reserve(4);
    queue.shrink_to_fit();
    queue.commit().unwrap();
    let mut cp = redo::record::Checkpoint::new(&mut record);
    cp.apply(Add('b')).unwrap();
    cp.reserve(2);
    cp.shrink_to_fit();
    cp.target_mut().push('!');
    assert_eq!(cp.target(), "ab!");
    cp.commit();
    assert_eq!(record.len(), 2);

    let mut history = Hist::default();
    let mut queue = redo::history::Queue::new(&mut history);
    queue.apply(Add('x'));
    queue.undo();
    assert!(queue.capacity() >= 2);
    queue.commit().unwrap();
    assert_eq!(history.target(), "");
    let mut cp = redo::history::Checkpoint::new(&mut history);
    cp.redo().unwrap();
    assert_eq!(cp.target(), "x");
    assert!(cp.go_to(0, 0).unwrap().is_ok());
    assert_eq!(cp.len(), 2);
    cp.cancel().unwrap();
    assert_eq!(history.target(), "");
}
