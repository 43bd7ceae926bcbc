use redo::history::History;
use redo::{Command, Signal};

#[derive(Debug)]
struct Add(char);

impl Command for Add {
    type Target = String;
    type Error = &'static str;

    fn apply(&mut self, s: &mut String) -> Result<(), &'static str> {
        s.push(self.0);
        Ok(())
    }

    fn undo(&mut self, s: &mut String) -> Result<(), &'static str> {
        self.0 = s.pop().ok_or("s is empty")?;
        Ok(())
    }
}

type Hist = History<Add, fn(Signal)>;

#[test]
fn history_go_to() {
    //          m
    //          |
    //    j  k  l
    //     \ | /
    //       i
    //       |
    // e  g  h
    // |  | /
    // d  f  p - q *
    // | /  /
    // c  n - o
    // | /
    // b
    // |
    // a
    let mut history = Hist::default();
    history.apply(Add('a')).unwrap();
    history.apply(Add('b')).unwrap();
    history.apply(Add('c')).unwrap();
    history.apply(Add('d')).unwrap();
    history.apply(Add('e')).unwrap();
    assert_eq!(history.target(), "abcde");
    history.undo().unwrap();
    history.undo().unwrap();
    assert_eq!(history.target(), "abc");
    let abcde = history.branch();
    history.apply(Add('f')).unwrap();
    history.apply(Add('g')).unwrap();
    assert_eq!(history.target(), "abcfg");
    history.undo().unwrap();
    let abcfg = history.branch();
    history.apply(Add('h')).unwrap();
    history.apply(Add('i')).unwrap();
    history.apply(Add('j')).unwrap();
    assert_eq!(history.target(), "abcfhij");
    history.undo().unwrap();
    let abcfhij = history.branch();
    history.apply(Add('k')).unwrap();
    assert_eq!(history.target(), "abcfhik");
    history.undo().unwrap();
    let abcfhik = history.branch();
    history.apply(Add('l')).unwrap();
    assert_eq!(history.target(), "abcfhil");
    history.apply(Add('m')).unwrap();
    assert_eq!(history.target(), "abcfhilm");
    let abcfhilm = history.branch();
    history.go_to(abcde, 2).unwrap().unwrap();
    history.apply(Add('n')).unwrap();
    history.apply(Add('o')).unwrap();
    assert_eq!(history.target(), "abno");
    history.undo().unwrap();
    let abno = history.branch();
    history.apply(Add('p')).unwrap();
    history.apply(Add('q')).unwrap();
    assert_eq!(history.target(), "abnpq");

    let abnpq = history.branch();
    history.go_to(abcde, 5).unwrap().unwrap();
    assert_eq!(history.target(), "abcde");
    history.go_to(abcfg, 5).unwrap().unwrap();
    assert_eq!(history.target(), "abcfg");
    history.go_to(abcfhij, 7).unwrap().unwrap();
    assert_eq!(history.target(), "abcfhij");
    history.go_to(abcfhik, 7).unwrap().unwrap();
    assert_eq!(history.target(), "abcfhik");
    history.go_to(abcfhilm, 8).unwrap().unwrap();
    assert_eq!(history.target(), "abcfhilm");
    history.go_to(abno, 4).unwrap().unwrap();
    assert_eq!(history.target(), "abno");
    history.go_to(abnpq, 5).unwrap().unwrap();
    assert_eq!(history.target(), "abnpq");
}
