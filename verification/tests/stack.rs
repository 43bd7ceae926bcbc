use redo::stack::{Stack, Stacks};
use redo::{Command, Merge};

/// Pushes a character; two pushes of the same character merge, and a push
/// of `'-'` annuls the push before it.
#[derive(Debug)]
struct Push(char, usize);

impl Command for Push {
    type Target = String;
    type Error = &'static str;

    fn apply(&mut self, s: &mut String) -> Result<(), &'static str> {
        if self.0 == '!' {
            return Err("refused");
        }
        if self.0 != '-' {
            s.push(self.0);
        }
        Ok(())
    }

    fn undo(&mut self, s: &mut String) -> Result<(), &'static str> {
        for _ in 0..self.1 {
            s.pop().ok_or("`s` is empty")?;
        }
        Ok(())
    }

    fn merge(&mut self, command: Self) -> Merge<Self> {
        if command.0 == '-' {
            Merge::Annul
        } else if command.0 == self.0 {
            self.1 += command.1;
            Merge::Yes
        } else {
            Merge::No(command)
        }
    }
}

#[test]
fn stack_push_pop() {
    let mut stack = Stack::<Push>::default();
    assert!(stack.is_empty());
    stack.push(Push('a', 1)).ok().unwrap();
    stack.push(Push('b', 1)).ok().unwrap();
    assert_eq!(stack.len(), 2);
    assert_eq!(stack.as_receiver(), "ab");
    let popped = stack.pop().unwrap().ok().unwrap();
    assert_eq!(popped.0, 'b');
    assert_eq!(stack.as_receiver(), "a");
    assert_eq!(stack.len(), 1);
    stack.pop().unwrap().ok().unwrap();
    assert!(stack.pop().is_none());
    assert_eq!(stack.into_receiver(), "");
}

#[test]
fn stack_merge_and_annul() {
    let mut stack = Stack::new(String::new());
    stack.push(Push('a', 1)).ok().unwrap();
    stack.push(Push('a', 1)).ok().unwrap();
    assert_eq!(stack.len(), 1);
    assert_eq!(stack.as_receiver(), "aa");
    stack.pop().unwrap().ok().unwrap();
    assert_eq!(stack.as_receiver(), "");
    stack.push(Push('b', 1)).ok().unwrap();
    stack.push(Push('-', 0)).ok().unwrap();
    assert!(stack.is_empty());
}

#[test]
fn stack_push_error_keeps_commands() {
    let mut stack = Stack::new(String::from("x"));
    stack.push(Push('a', 1)).ok().unwrap();
    let err = match stack.push(Push('!', 1)) {
        Err(err) => err,
        Ok(()) => panic!("the command was refused"),
    };
    assert_eq!(err.command().0, '!');
    assert_eq!(*err.error(), "refused");
    assert_eq!(err.into_command().1, 1);
    assert_eq!(stack.len(), 1);
    stack.clear();
    assert!(stack.is_empty());
    assert_eq!(stack.as_receiver(), "xa");
}

#[test]
fn stacks_add_remove_and_active() {
    let mut stacks = Stacks::<Push>::new();
    assert!(stacks.is_empty());
    let a = stacks.add(Stack::new(String::new()));
    let b = stacks.add_default();
    assert_ne!(a, b);
    assert_eq!(stacks.len(), 2);
    assert!(stacks.capacity() >= 2);
    stacks.push(Push('x', 1)).unwrap().ok().unwrap();
    assert_eq!(stacks.as_receiver().unwrap(), "x");
    stacks.set_active(Some(b));
    assert_eq!(stacks.as_receiver().unwrap(), "");
    assert!(stacks.pop().is_none());
    stacks.push(Push('y', 1)).unwrap().ok().unwrap();
    assert_eq!(stacks.pop().unwrap().ok().unwrap().0, 'y');
    let removed = stacks.remove(b).unwrap();
    assert!(removed.is_empty());
    assert!(stacks.as_receiver().is_none());
    assert!(stacks.push(Push('z', 1)).is_none());
    assert!(stacks.remove(b).is_none());
    stacks.set_active(Some(a));
    assert_eq!(stacks.as_receiver().unwrap(), "x");
    let c = Stacks::<Push>::with_capacity(8);
    assert_eq!(c.len(), 0);
}

#[test]
fn stack_lines_top_first() {
    let mut stack = Stack::new(String::new());
    stack.push(Push('a', 1)).ok().unwrap();
    stack.push(Push('b', 1)).ok().unwrap();
    let lines: Vec<char> = stack.lines().iter().map(|c| c.0).collect();
    assert_eq!(lines, vec!['b', 'a']);
}

#[test]
fn stacks_iter_in_key_order() {
    let mut stacks = Stacks::<Push>::default();
    let a = stacks.add(Stack::new(String::from("a")));
    let b = stacks.add(Stack::new(String::from("b")));
    let c = stacks.add(Stack::new(String::from("c")));
    stacks.remove(b);
    let seen: Vec<(redo::Key, String)> = stacks.iter().into_iter().map(|(k, s)| (k, s.as_receiver().clone())).collect();
    assert_eq!(seen, vec![(a, String::from("a")), (c, String::from("c"))]);
    let owned: Vec<redo::Key> = stacks.into_iter().into_iter().map(|(k, _)| k).collect();
    assert_eq!(owned, vec![a, c]);
}

#[test]
fn pushing_an_outcome() {
    let mut stack = Stack::new(String::new());
    let err = match stack.push_applied(Push('a', 1), Err("refused")) {
        Err(err) => err,
        Ok(()) => panic!("the outcome was a failure"),
    };
    assert_eq!(err.command().0, 'a');
    assert!(stack.is_empty());
    stack.push_applied(Push('a', 1), Ok(())).ok().unwrap();
    assert_eq!(stack.len(), 1);
    assert_eq!(stack.as_receiver(), "");
}

#[test]
fn popped_outcomes() {
    let ok = match Stack::<Push>::popped(Push('a', 1), Ok(())) {
        Ok(cmd) => cmd,
        Err(_) => panic!("the outcome was a success"),
    };
    assert_eq!(ok.0, 'a');
    let err = match Stack::<Push>::popped(Push('b', 1), Err("refused")) {
        Err(err) => err,
        Ok(_) => panic!("the outcome was a failure"),
    };
    assert_eq!(err.command().0, 'b');
    assert_eq!(*err.error(), "refused");
}

#[test]
fn settling_each_stack_merge_outcome() {
    let mut stack = Stack::new(String::new());
    stack.settle_merge(Merge::No(Push('a', 1)));
    stack.settle_merge(Merge::No(Push('b', 1)));
    assert_eq!(stack.len(), 2);
    stack.settle_merge(Merge::Yes);
    assert_eq!(stack.len(), 2);
    stack.settle_merge(Merge::Annul);
    assert_eq!(stack.len(), 1);
    assert_eq!(stack.lines()[0].0, 'a');
}
