use migrant_lib::migrator::{ApplyAction, ApplyEvent, ApplyState, Migrator, MigratorSettings};
use migrant_lib::{next_available, Direction, Error, ErrorKind};

fn s(v: &[&str]) -> Vec<String> {
    v.iter().map(|x| x.to_string()).collect()
}

#[test]
fn builders_set_each_setting() {
    let cfg = 5u8;
    let mut m = Migrator::with_config(&cfg);
    let d = m.get_settings();
    assert_eq!(
        d,
        MigratorSettings {
            direction: Direction::Up,
            force: false,
            fake: false,
            all: false,
            show_output: true,
            swallow_completion: false
        }
    );
    m.direction(Direction::Down).force(true).fake(true).all(true).show_output(false).swallow_completion(true);
    let d = m.get_settings();
    assert_eq!(
        d,
        MigratorSettings {
            direction: Direction::Down,
            force: true,
            fake: true,
            all: true,
            show_output: false,
            swallow_completion: true
        }
    );
    assert_eq!(*m.config(), 5u8);
}

#[test]
fn next_available_up_picks_first_unapplied() {
    let avail = s(&["a", "b", "c"]);
    assert_eq!(next_available(&Direction::Up, &avail, &s(&[])).unwrap(), Some(0));
    assert_eq!(next_available(&Direction::Up, &avail, &s(&["a"])).unwrap(), Some(1));
    assert_eq!(next_available(&Direction::Up, &avail, &s(&["b"])).unwrap(), Some(0));
    assert_eq!(next_available(&Direction::Up, &avail, &s(&["a", "b", "c"])).unwrap(), None);
}

#[test]
fn next_available_down_picks_last_applied() {
    let avail = s(&["a", "b", "c"]);
    assert_eq!(next_available(&Direction::Down, &avail, &s(&[])).unwrap(), None);
    assert_eq!(next_available(&Direction::Down, &avail, &s(&["a", "b"])).unwrap(), Some(1));
    let dup = s(&["a", "b", "a"]);
    assert_eq!(next_available(&Direction::Down, &dup, &s(&["a"])).unwrap(), Some(2));
    let e = next_available(&Direction::Down, &avail, &s(&["a", "zz"])).unwrap_err();
    match e.kind {
        ErrorKind::MigrationNotFound(m) => assert_eq!(m, "Tag not found: zz"),
        other => panic!("unexpected kind {:?}", other),
    }
}

#[test]
fn up_then_down_undoes() {
    let avail = s(&["a", "b", "c"]);
    let mut applied = s(&["a"]);
    let i = next_available(&Direction::Up, &avail, &applied).unwrap().unwrap();
    applied.push(avail[i].clone());
    assert_eq!(next_available(&Direction::Down, &avail, &applied).unwrap(), Some(i));
    let j = next_available(&Direction::Up, &avail, &applied).unwrap().unwrap();
    assert!(j > i);
}

/// Drives a run against an in-memory list of applied tags.
fn run(
    m: &Migrator<()>,
    tags: &[&str],
    applied: &mut Vec<String>,
    fail_run: Option<&str>,
) -> (Result<(), Error>, String, Vec<usize>) {
    let mut out = String::new();
    let mut ran = Vec::new();
    let step = m.begin();
    let mut state: ApplyState = step.state;
    let mut action = step.action;
    loop {
        let event = match action {
            ApplyAction::LoadMigrations => ApplyEvent::Migrations {
                tags: s(tags),
                descriptions: tags.iter().map(|t| format!("desc-{}", t)).collect(),
                applied: applied.clone(),
            },
            ApplyAction::RunMigration { index, .. } => {
                ran.push(index);
                match fail_run {
                    Some(t) if t == tags[index] => ApplyEvent::Ran(Err("bad sql".to_string())),
                    _ => ApplyEvent::Ran(Ok(())),
                }
            }
            ApplyAction::RecordTag { direction, tag } => {
                match direction {
                    Direction::Up => applied.push(tag),
                    Direction::Down => applied.retain(|t| *t != tag),
                }
                ApplyEvent::Recorded(Ok(()))
            }
            ApplyAction::Reload => ApplyEvent::Reloaded(Ok(())),
            ApplyAction::Finish(res) => return (m.apply(res), out, ran),
        };
        assert!(Migrator::<()>::accepts(&state, &event));
        let step = m.step(state, event);
        out.push_str(&step.output);
        state = step.state;
        action = step.action;
    }
}

#[test]
fn single_up_migration() {
    let m = Migrator::with_config(&());
    let mut applied = Vec::new();
    let (r, out, ran) = run(&m, &["a", "b"], &mut applied, None);
    assert!(r.is_ok());
    assert_eq!(applied, s(&["a"]));
    assert_eq!(ran, vec![0]);
    assert_eq!(out, "Applying[Up]: desc-a  \u{2713}\n");
}

#[test]
fn all_up_then_complete() {
    let mut m = Migrator::with_config(&());
    m.all(true);
    let mut applied = Vec::new();
    let (r, _, ran) = run(&m, &["a", "b", "c"], &mut applied, None);
    assert!(r.is_ok());
    assert_eq!(applied, s(&["a", "b", "c"]));
    assert_eq!(ran, vec![0, 1, 2]);
    let (r, _, _) = run(&m, &["a", "b", "c"], &mut applied, None);
    let e = r.unwrap_err();
    assert!(e.is_migration_complete());
    assert_eq!(e.to_string(), "MigrationComplete: No un-applied `Up` migrations found");
}

#[test]
fn swallow_completion_hides_complete() {
    let mut m = Migrator::with_config(&());
    m.swallow_completion(true);
    let mut applied = s(&["a"]);
    let (r, out, _) = run(&m, &["a"], &mut applied, None);
    assert!(r.is_ok());
    assert_eq!(out, "");
}

#[test]
fn down_all_unapplies_in_reverse() {
    let mut m = Migrator::with_config(&());
    m.direction(Direction::Down).all(true).show_output(false);
    let mut applied = s(&["a", "b"]);
    let (r, out, ran) = run(&m, &["a", "b"], &mut applied, None);
    assert!(r.is_ok());
    assert!(applied.is_empty());
    assert_eq!(ran, vec![1, 0]);
    assert_eq!(out, "");
}

#[test]
fn fake_records_without_running() {
    let mut m = Migrator::with_config(&());
    m.fake(true).all(true);
    let mut applied = Vec::new();
    let (r, out, ran) = run(&m, &["a", "b"], &mut applied, None);
    assert!(r.is_ok());
    assert!(ran.is_empty());
    assert_eq!(applied, s(&["a", "b"]));
    assert_eq!(out, "Applying[Up]: desc-a  \u{2713} (fake)\nApplying[Up]: desc-b  \u{2713} (fake)\n");
}

#[test]
fn failed_migration_stops_without_force() {
    let mut m = Migrator::with_config(&());
    m.all(true);
    let mut applied = Vec::new();
    let (r, out, _) = run(&m, &["a", "b", "c"], &mut applied, Some("b"));
    let e = r.unwrap_err();
    match e.kind {
        ErrorKind::Migration(msg) => assert_eq!(msg, "Migration was unsucessful...\nbad sql"),
        other => panic!("unexpected kind {:?}", other),
    }
    assert_eq!(applied, s(&["a"]));
    assert_eq!(out, "Applying[Up]: desc-a  \u{2713}\nApplying[Up]: desc-b\n");
}

#[test]
fn failed_migration_recorded_with_force() {
    let mut m = Migrator::with_config(&());
    m.all(true).force(true);
    let mut applied = Vec::new();
    let (r, out, _) = run(&m, &["a", "b"], &mut applied, Some("a"));
    assert!(r.is_ok());
    assert_eq!(applied, s(&["a", "b"]));
    assert!(out.starts_with(
        "Applying[Up]: desc-a\n ** Error ** (Continuing because `--force` flag was specified)\n ** bad sql\n"
    ));
}

#[test]
fn errors_reported_by_caller_end_the_run() {
    let m = Migrator::with_config(&());
    let step = m.begin();
    let e = Error::from_kind(ErrorKind::PathError("nope".to_string()));
    let step = m.step(step.state, ApplyEvent::MigrationsFailed(e));
    match step.action {
        ApplyAction::Finish(Err(e)) => assert_eq!(e.to_string(), "PathError: nope"),
        other => panic!("unexpected action {:?}", other),
    }
}

#[test]
fn all_up_runs_each_unapplied_once_in_order() {
    let mut m = Migrator::with_config(&());
    m.all(true).show_output(false);
    let mut applied = s(&["b"]);
    let (r, _, ran) = run(&m, &["a", "b", "c", "d"], &mut applied, None);
    assert!(r.is_ok());
    assert_eq!(ran, vec![0, 2, 3]);
    assert_eq!(applied, s(&["b", "a", "c", "d"]));
}
