use redo::archive::Archive;
use redo::timeline::Timeline;
use redo::{Command, Signal};

#[derive(Debug)]
struct Add(char);

impl Command for Add {
    type Target = String;
    type Error = &'static str;

    fn apply(&mut self, s: &mut String) -> Result<(), &'static str> {
        s.push(self.0);
        Ok(())
    }

    fn undo(&mut self, s: &mut String) -> Result<(), &'static str> {
        self.0 = s.pop().ok_or("s is empty")?;
        Ok(())
    }
}

#[test]
fn simple() {
    let mut timeline = Timeline::<Add, fn(Signal)>::default();
    timeline.apply(Add('a')).unwrap();
    timeline.apply(Add('b')).unwrap();
    timeline.undo().unwrap();
    timeline.apply(Add('c')).unwrap();
    timeline.undo().unwrap();
    timeline.undo().unwrap();
    assert_eq!(timeline.target(), "ab");
    timeline.redo().unwrap();
    timeline.redo().unwrap();
    assert_eq!(timeline.target(), "ac");
    timeline.undo().unwrap();
    timeline.undo().unwrap();
    assert_eq!(timeline.target(), "ab");
    timeline.undo().unwrap();
    timeline.undo().unwrap();
    assert_eq!(timeline.target(), "");
    timeline.redo().unwrap();
    timeline.redo().unwrap();
    assert_eq!(timeline.target(), "ab");
    timeline.redo().unwrap();
    timeline.redo().unwrap();
    assert_eq!(timeline.target(), "ac");
}

#[test]
fn jump_to() {
    let mut archive = Archive::<Add, fn(Signal)>::default();
    archive.apply(Add('a')).unwrap();
    archive.apply(Add('b')).unwrap();
    archive.undo().unwrap();
    archive.apply(Add('c')).unwrap();
    archive.undo().unwrap();
    archive.undo().unwrap();
    assert_eq!(archive.target(), "ab");
    archive.redo().unwrap();
    archive.redo().unwrap();
    assert_eq!(archive.target(), "ac");
    archive.undo().unwrap();
    archive.undo().unwrap();
    assert_eq!(archive.target(), "ab");
    archive.undo().unwrap();
    archive.undo().unwrap();
    assert_eq!(archive.target(), "");
    archive.redo().unwrap();
    archive.redo().unwrap();
    assert_eq!(archive.target(), "ab");
    archive.redo().unwrap();
    archive.redo().unwrap();
    assert_eq!(archive.target(), "ac");
}
