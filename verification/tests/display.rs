use redo::format::{Format, Row};
use redo::history::History;
use redo::record::Record;
use redo::{At, Command, Signal};

#[derive(Debug)]
struct Add(char);

impl Command for Add {
    type Target = String;
    type Error = &'static str;

    fn apply(&mut self, s: &mut String) -> Result<(), &'static str> {
        s.push(self.0);
        Ok(())
    }

    fn undo(&mut self, s: &mut String) -> Result<(), &'static str> {
        self.0 = s.pop().ok_or("`s` is empty")?;
        Ok(())
    }
}

impl std::fmt::Display for Add {
    fn fmt(&self, f: &mut std::fmt::Formatter) -> std::fmt::Result {
        f.write_str(&format!("Add '{}'", self.0))
    }
}

fn summary(rows: &[Row<'_, Add>]) -> Vec<String> {
    rows.iter()
        .map(|row| match row {
            Row::Line { at, level, entry, current, saved } => format!(
                "{}:{}:{}:{}{}{}",
                level,
                at.branch,
                at.current,
                entry.map(|e| e.command.0).unwrap_or('.'),
                if *current { "*" } else { "" },
                if *saved { "s" } else { "" },
            ),
            Row::Split { level } => format!("{}:split", level),
        })
        .collect()
}

#[test]
fn record_display_rows() {
    let mut record = Record::<Add, fn(Signal)>::default();
    record.apply(Add('a')).unwrap();
    record.apply(Add('b')).unwrap();
    record.set_saved(true);
    record.apply(Add('c')).unwrap();
    record.undo().unwrap();
    let mut display = record.display();
    display.detailed(false).position(false).colored(false);
    assert_eq!(
        display.format,
        Format { colored: false, current: true, detailed: false, position: false, saved: true }
    );
    display.current(false).saved(false);
    assert!(!display.format.current && !display.format.saved);
    let rows = display.rows();
    assert_eq!(summary(&rows), vec!["0:0:3:c", "0:0:2:b*s", "0:0:1:a"]);
    assert_eq!(Format::default(), Format::new());
}

#[test]
fn history_display_rows() {
    let mut history = History::<Add, fn(Signal)>::default();
    history.apply(Add('a')).unwrap();
    history.apply(Add('b')).unwrap();
    history.undo().unwrap();
    history.apply(Add('c')).unwrap();
    let display = history.display();
    let rows = display.rows();
    assert_eq!(
        summary(&rows),
        vec!["0:1:2:c*", "1:0:2:b", "0:split", "0:1:1:a", "0:1:0:.s"]
    );
    assert_eq!(history.branch(), 1);
    assert_eq!(At::new(history.branch(), history.current()), At::new(1, 2));
}
