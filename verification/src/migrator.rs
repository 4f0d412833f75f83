//! The migration applicator: which migration comes next, and the decisions
//! taken while a run applies migrations one after another.
use vstd::prelude::*;
use vstd::string::*;
use crate::errors::{Error, ErrorKind};
use crate::kinds::{Direction, direction_name};
use crate::text::{strings_view, contains_string, join2, join3};

verus! {

/// The settings of a migration applicator.
#[derive(Debug, Clone, Copy, PartialEq, Eq, Structural)]
pub struct MigratorSettings {
    pub direction: Direction,
    pub force: bool,
    pub fake: bool,
    pub all: bool,
    pub show_output: bool,
    pub swallow_completion: bool,
}

/// Migration applicator
#[derive(Debug, Clone)]
pub struct Migrator<C> {
    config: C,
    direction: Direction,
    force: bool,
    fake: bool,
    all: bool,
    show_output: bool,
    swallow_completion: bool,
}

impl<C> Migrator<C> {
    /// The settings of the applicator.
    pub closed spec fn settings(&self) -> MigratorSettings {
        MigratorSettings {
            direction: self.direction,
            force: self.force,
            fake: self.fake,
            all: self.all,
            show_output: self.show_output,
            swallow_completion: self.swallow_completion,
        }
    }

    /// The configuration the applicator works on.
    pub closed spec fn config_view(&self) -> C {
        self.config
    }

    /// Initialize a new `Migrator` with a given configuration: direction
    /// `Up`, output shown, every other setting off.
    pub fn with_config(config: &C) -> (r: Self)
        where C: Clone,
        ensures
            r.settings() == (MigratorSettings {
                direction: Direction::Up,
                force: false,
                fake: false,
                all: false,
                show_output: true,
                swallow_completion: false,
            }),
            cloned::<C>(*config, r.config_view()),
    {
        Migrator {
            config: config.clone(),
            direction: Direction::Up,
            force: false,
            fake: false,
            all: false,
            show_output: true,
            swallow_completion: false,
        }
    }

    /// The configuration the applicator works on.
    pub fn config(&self) -> (r: &C)
        ensures
            *r == self.config_view(),
    {
        &self.config
    }

    /// The settings of the applicator, as a value.
    pub fn get_settings(&self) -> (r: MigratorSettings)
        ensures
            r == self.settings(),
    {
        MigratorSettings {
            direction: self.direction,
            force: self.force,
            fake: self.fake,
            all: self.all,
            show_output: self.show_output,
            swallow_completion: self.swallow_completion,
        }
    }

    /// Set `direction`. Default is `Up`.
    pub fn direction(&mut self, dir: Direction) -> (r: &mut Self)
        ensures
            r.settings() == (MigratorSettings { direction: dir, ..old(self).settings() }),
            r.config_view() == old(self).config_view(),
            *final(self) == *final(r),
    {
        self.direction = dir;
        self
    }

    /// Set `force` to forcefully apply migrations regardless of errors
    pub fn force(&mut self, force: bool) -> (r: &mut Self)
        ensures
            r.settings() == (MigratorSettings { force: force, ..old(self).settings() }),
            r.config_view() == old(self).config_view(),
            *final(self) == *final(r),
    {
        self.force = force;
        self
    }

    /// Set `fake` to fake application of migrations.
    /// Applied migrations table will be updated as if migrations were actually run.
    pub fn fake(&mut self, fake: bool) -> (r: &mut Self)
        ensures
            r.settings() == (MigratorSettings { fake: fake, ..old(self).settings() }),
            r.config_view() == old(self).config_view(),
            *final(self) == *final(r),
    {
        self.fake = fake;
        self
    }

    /// Set `all` to run all remaining available migrations in the given `direction`
    pub fn all(&mut self, all: bool) -> (r: &mut Self)
        ensures
            r.settings() == (MigratorSettings { all: all, ..old(self).settings() }),
            r.config_view() == old(self).config_view(),
            *final(self) == *final(r),
    {
        self.all = all;
        self
    }

    /// Toggle migration application output. Default is `true`
    pub fn show_output(&mut self, show_output: bool) -> (r: &mut Self)
        ensures
            r.settings() == (MigratorSettings { show_output: show_output, ..old(self).settings() }),
            r.config_view() == old(self).config_view(),
            *final(self) == *final(r),
    {
        self.show_output = show_output;
        self
    }

    /// Don't return any `MigrationComplete` errors when running `Migrator::apply`.
    /// All other errors will still be returned.
    pub fn swallow_completion(&mut self, swallow_completion: bool) -> (r: &mut Self)
        ensures
            r.settings() == (MigratorSettings {
                swallow_completion: swallow_completion,
                ..old(self).settings()
            }),
            r.config_view() == old(self).config_view(),
            *final(self) == *final(r),
    {
        self.swallow_completion = swallow_completion;
        self
    }
}

/// `i` is the first migration whose tag has not been applied.
pub open spec fn is_first_unapplied(available: Seq<Seq<char>>, applied: Seq<Seq<char>>, i: int) -> bool {
    &&& 0 <= i < available.len()
    &&& !applied.contains(available[i])
    &&& forall|j: int| 0 <= j < i ==> applied.contains(#[trigger] available[j])
}

/// Every available migration has been applied.
pub open spec fn all_applied(available: Seq<Seq<char>>, applied: Seq<Seq<char>>) -> bool {
    forall|j: int| 0 <= j < available.len() ==> applied.contains(#[trigger] available[j])
}

/// `i` is the last migration carrying the tag `tag`.
pub open spec fn is_last_with_tag(available: Seq<Seq<char>>, tag: Seq<char>, i: int) -> bool {
    &&& 0 <= i < available.len()
    &&& available[i] == tag
    &&& forall|j: int| i < j < available.len() ==> #[trigger] available[j] != tag
}

/// What `next_available` answers, given the tags of the available
/// migrations and the applied tags, oldest first.
pub open spec fn next_available_answer(
    direction: Direction,
    available: Seq<Seq<char>>,
    applied: Seq<Seq<char>>,
    r: Result<Option<usize>, Error>,
) -> bool {
    match direction {
        Direction::Up => match r {
            Ok(Some(i)) => is_first_unapplied(available, applied, i as int),
            Ok(None) => all_applied(available, applied),
            Err(_) => false,
        },
        Direction::Down => if applied.len() == 0 {
            r == Ok::<Option<usize>, Error>(None)
        } else if available.contains(applied.last()) {
            r matches Ok(Some(i)) && is_last_with_tag(available, applied.last(), i as int)
        } else {
            r matches Err(e) && e.kind matches ErrorKind::MigrationNotFound(m)
                && m@ == "Tag not found: "@ + applied.last()
        },
    }
}

/// The migration to apply next, by its index among the available ones:
/// going up, the first one whose tag has not been applied; going down, the
/// last one whose tag is the last applied tag. Going down, a last applied tag
/// that no available migration carries is a `MigrationNotFound` error.
pub fn next_available(direction: &Direction, available: &[String], applied: &[String]) -> (r: Result<Option<usize>, Error>)
    ensures
        next_available_answer(*direction, strings_view(available@), strings_view(applied@), r),
{
    let ghost avail = strings_view(available@);
    let ghost app = strings_view(applied@);
    match direction {
        Direction::Up => {
            let mut i: usize = 0;
            while i < available.len()
                invariant
                    *direction == Direction::Up,
                    i <= available@.len(),
                    avail == strings_view(available@),
                    app == strings_view(applied@),
                    forall|j: int| 0 <= j < i ==> app.contains(#[trigger] avail[j]),
                decreases available@.len() - i,
            {
                if !contains_string(applied, available[i].as_str()) {
                    assert(avail[i as int] == available@[i as int]@);
                    return Ok(Some(i));
                }
                i = i + 1;
            }
            Ok(None)
        },
        Direction::Down => {
            if applied.len() == 0 {
                return Ok(None);
            }
            let last = &applied[applied.len() - 1];
            assert(app.last() == last@);
            let mut k: usize = available.len();
            while k > 0
                invariant
                    *direction == Direction::Down,
                    k <= available@.len(),
                    avail == strings_view(available@),
                    app == strings_view(applied@),
                    app.len() > 0,
                    app.last() == last@,
                    forall|j: int| k <= j < available@.len() ==> #[trigger] avail[j] != last@,
                decreases k,
            {
                if available[k - 1] == *last {
                    assert(avail[k - 1] == last@);
                    assert(avail.contains(app.last()));
                    return Ok(Some(k - 1));
                }
                k = k - 1;
            }
            assert(!avail.contains(last@)) by {
                if avail.contains(last@) {
                    let j = avail.index_of(last@);
                    assert(avail[j] == last@);
                }
            }
            Err(Error::from_kind(ErrorKind::MigrationNotFound(join2("Tag not found: ", last.as_str()))))
        },
    }
}

/// Going up, once the chosen migration's tag is recorded as applied, the
/// next migration chosen comes after it.
pub proof fn lemma_up_progresses(available: Seq<Seq<char>>, applied: Seq<Seq<char>>, i: int, j: int)
    requires
        is_first_unapplied(available, applied, i),
        is_first_unapplied(available, applied.push(available[i]), j),
    ensures
        j > i,
{
    assert(applied.push(available[i]).contains(available[i])) by {
        assert(applied.push(available[i])[applied.len() as int] == available[i]);
    }
    if j < i {
        assert(applied.contains(available[j]));
        let k = applied.index_of(available[j]);
        assert(applied.push(available[i])[k] == available[j]);
    }
}

/// Tags are unique among the available migrations.
pub open spec fn tags_unique(available: Seq<Seq<char>>) -> bool {
    forall|a: int, b: int| 0 <= a < b < available.len() ==> available[a] != available[b]
}

/// Going down right after going up undoes the step: when tags are unique,
/// the migration chosen going down, once the tag of the migration chosen
/// going up has been recorded, is that same migration.
pub proof fn lemma_down_undoes_up(available: Seq<Seq<char>>, applied: Seq<Seq<char>>, i: int)
    requires
        tags_unique(available),
        is_first_unapplied(available, applied, i),
    ensures
        applied.push(available[i]).len() > 0,
        available.contains(applied.push(available[i]).last()),
        is_last_with_tag(available, applied.push(available[i]).last(), i),
{
    assert(available[i] == available[i]);
}

/// What a run of the applicator waits for.
#[derive(Debug)]
pub enum Pending {
    /// The tags and descriptions of the available migrations and the applied tags.
    Migrations,
    /// The outcome of running the migration with this tag.
    Run { tag: String },
    /// The outcome of recording (going up) or removing (going down) this tag.
    Record { tag: String },
    /// The outcome of reloading the configuration.
    Reload,
    /// Nothing: the run is over.
    Done,
}

/// The state of a run of the applicator.
#[derive(Debug)]
pub struct ApplyState {
    /// Whether the run is past its first migration (only when `all` is set).
    pub nested: bool,
    pub pending: Pending,
}

/// What the caller of the applicator reports back.
#[derive(Debug)]
pub enum ApplyEvent {
    /// The available migrations (their tags, and their descriptions in the
    /// run's direction), and the applied tags, oldest first.
    Migrations { tags: Vec<String>, descriptions: Vec<String>, applied: Vec<String> },
    /// The available migrations could not be found.
    MigrationsFailed(Error),
    /// The migration ran, or failed with this message.
    Ran(Result<(), String>),
    /// The tag was recorded or removed, or that failed.
    Recorded(Result<(), Error>),
    /// The configuration was reloaded, or that failed.
    Reloaded(Result<(), Error>),
}

/// What the caller of the applicator is asked to do next.
#[derive(Debug)]
pub enum ApplyAction {
    /// Find the available migrations and the applied tags.
    LoadMigrations,
    /// Run the available migration at this index: apply it (`Up`) or revert
    /// it (`Down`).
    RunMigration { index: usize, direction: Direction },
    /// Record the tag as applied (`Up`) or remove it from the applied tags (`Down`).
    RecordTag { direction: Direction, tag: String },
    /// Reload the configuration.
    Reload,
    /// The run is over, with this result.
    Finish(Result<(), Error>),
}

/// A step of a run: the new state, the action asked for, and the text to
/// show (empty when output is off).
#[derive(Debug)]
pub struct ApplyStep {
    pub state: ApplyState,
    pub action: ApplyAction,
    pub output: String,
}

/// The text to show: `s` when output is on, else nothing.
pub open spec fn shown(settings: MigratorSettings, s: Seq<char>) -> Seq<char> {
    if settings.show_output { s } else { Seq::empty() }
}

/// The result a run ends with: after its first migration, a run that finds
/// nothing more to apply has succeeded.
pub open spec fn round_result(nested: bool, res: Result<(), Error>) -> Result<(), Error> {
    match res {
        Err(e) => if nested && e.kind is MigrationComplete { Ok(()) } else { res },
        Ok(()) => res,
    }
}

/// Whether the event answers what the state waits for.
pub open spec fn fits(state: ApplyState, event: ApplyEvent) -> bool {
    match event {
        ApplyEvent::Migrations { tags, descriptions, applied } =>
            state.pending is Migrations && tags@.len() == descriptions@.len(),
        ApplyEvent::MigrationsFailed(_) => state.pending is Migrations,
        ApplyEvent::Ran(_) => state.pending is Run,
        ApplyEvent::Recorded(_) => state.pending is Record,
        ApplyEvent::Reloaded(_) => state.pending is Reload,
    }
}

/// The step ends the run with the round's result for `res`.
pub open spec fn finishes_with(state: ApplyState, r: ApplyStep, res: Result<(), Error>) -> bool {
    &&& r.state.pending is Done
    &&& r.state.nested == state.nested
    &&& r.action == ApplyAction::Finish(round_result(state.nested, res))
}

/// The header shown when a migration is applied.
pub open spec fn announce_text(direction: Direction, description: Seq<char>) -> Seq<char> {
    "Applying["@ + direction_name(direction) + "]: "@ + description
}

/// The text shown when a migration was applied.
pub open spec fn applied_mark() -> Seq<char> {
    "  \u{2713}\n"@
}

/// The text shown when a migration was marked applied without running it.
pub open spec fn fake_mark() -> Seq<char> {
    "  \u{2713} (fake)\n"@
}

/// The text shown when a migration failed and `force` is set.
pub open spec fn forced_text(msg: Seq<char>) -> Seq<char> {
    "\n"@ + " ** Error ** (Continuing because `--force` flag was specified)\n ** "@ + msg + "\n"@
}

/// The index of the migration to apply next, when there is one.
pub open spec fn chosen_index(direction: Direction, available: Seq<Seq<char>>, applied: Seq<Seq<char>>) -> int {
    if direction == Direction::Up {
        choose|i: int| is_first_unapplied(available, applied, i)
    } else {
        choose|i: int| is_last_with_tag(available, applied.last(), i)
    }
}

proof fn lemma_first_unapplied_unique(available: Seq<Seq<char>>, applied: Seq<Seq<char>>, i: int, j: int)
    requires
        is_first_unapplied(available, applied, i),
        is_first_unapplied(available, applied, j),
    ensures
        i == j,
{
    if i < j {
        assert(applied.contains(available[i]));
    }
    if j < i {
        assert(applied.contains(available[j]));
    }
}

proof fn lemma_last_with_tag_unique(available: Seq<Seq<char>>, tag: Seq<char>, i: int, j: int)
    requires
        is_last_with_tag(available, tag, i),
        is_last_with_tag(available, tag, j),
    ensures
        i == j,
{
    if i < j {
        assert(available[j] == tag);
    }
    if j < i {
        assert(available[i] == tag);
    }
}

/// A step of a run, as decided from the settings, the state and the event.
pub open spec fn step_taken(settings: MigratorSettings, state: ApplyState, event: ApplyEvent, r: ApplyStep) -> bool {
    match event {
        ApplyEvent::Migrations { tags, descriptions, applied } => {
            let avail = strings_view(tags@);
            let done = strings_view(applied@);
            if settings.direction == Direction::Down && done.len() > 0 && !avail.contains(done.last()) {
                &&& r.output@ == Seq::<char>::empty()
                &&& r.state.pending is Done
                &&& r.state.nested == state.nested
                &&& r.action matches ApplyAction::Finish(Err(e))
                &&& e.kind matches ErrorKind::MigrationNotFound(m)
                &&& m@ == "Tag not found: "@ + done.last()
            } else if (settings.direction == Direction::Up && all_applied(avail, done))
                || (settings.direction == Direction::Down && done.len() == 0) {
                &&& r.output@ == Seq::<char>::empty()
                &&& r.state.pending is Done
                &&& r.state.nested == state.nested
                &&& if state.nested {
                    r.action == ApplyAction::Finish(Ok(()))
                } else {
                    r.action matches ApplyAction::Finish(Err(e))
                    && e.kind matches ErrorKind::MigrationComplete(m)
                    && m@ == "No un-applied `"@ + direction_name(settings.direction) + "` migrations found"@
                }
            } else {
                let i = chosen_index(settings.direction, avail, done);
                &&& r.state.nested == state.nested
                &&& if settings.fake {
                    &&& r.state.pending matches Pending::Record { tag } && tag@ == avail[i]
                    &&& r.action matches ApplyAction::RecordTag { direction, tag }
                        && direction == settings.direction && tag@ == avail[i]
                    &&& r.output@ == shown(settings,
                        announce_text(settings.direction, descriptions@[i]@) + fake_mark())
                } else {
                    &&& r.state.pending matches Pending::Run { tag } && tag@ == avail[i]
                    &&& r.action == ApplyAction::RunMigration { index: i as usize, direction: settings.direction }
                    &&& r.output@ == shown(settings, announce_text(settings.direction, descriptions@[i]@))
                }
            }
        },
        ApplyEvent::MigrationsFailed(e) => {
            &&& r.output@ == Seq::<char>::empty()
            &&& finishes_with(state, r, Err(e))
        },
        ApplyEvent::Ran(Ok(())) => {
            &&& r.output@ == shown(settings, applied_mark())
            &&& r.state.nested == state.nested
            &&& state.pending matches Pending::Run { tag: t }
            &&& r.state.pending matches Pending::Record { tag } && tag@ == t@
            &&& r.action matches ApplyAction::RecordTag { direction, tag }
                && direction == settings.direction && tag@ == t@
        },
        ApplyEvent::Ran(Err(msg)) => if settings.force {
            &&& r.output@ == shown(settings, forced_text(msg@))
            &&& r.state.nested == state.nested
            &&& state.pending matches Pending::Run { tag: t }
            &&& r.state.pending matches Pending::Record { tag } && tag@ == t@
            &&& r.action matches ApplyAction::RecordTag { direction, tag }
                && direction == settings.direction && tag@ == t@
        } else {
            &&& r.output@ == shown(settings, "\n"@)
            &&& r.state.pending is Done
            &&& r.state.nested == state.nested
            &&& r.action matches ApplyAction::Finish(Err(e))
            &&& e.kind matches ErrorKind::Migration(m)
            &&& m@ == "Migration was unsucessful...\n"@ + msg@
        },
        ApplyEvent::Recorded(Ok(())) => {
            &&& r.output@ == Seq::<char>::empty()
            &&& r.state.nested == state.nested
            &&& r.state.pending is Reload
            &&& r.action == ApplyAction::Reload
        },
        ApplyEvent::Recorded(Err(e)) => {
            &&& r.output@ == Seq::<char>::empty()
            &&& finishes_with(state, r, Err(e))
        },
        ApplyEvent::Reloaded(Ok(())) => {
            &&& r.output@ == Seq::<char>::empty()
            &&& if settings.all {
                &&& r.state.nested
                &&& r.state.pending is Migrations
                &&& r.action == ApplyAction::LoadMigrations
            } else {
                finishes_with(state, r, Ok(()))
            }
        },
        ApplyEvent::Reloaded(Err(e)) => {
            &&& r.output@ == Seq::<char>::empty()
            &&& finishes_with(state, r, Err(e))
        },
    }
}

/// The result of `apply`, given the result the run finished with.
pub open spec fn apply_result(settings: MigratorSettings, outcome: Result<(), Error>) -> Result<(), Error> {
    match outcome {
        Err(e) => if settings.swallow_completion && e.kind is MigrationComplete { Ok(()) } else { outcome },
        Ok(()) => outcome,
    }
}

/// With `swallow_completion` set, `apply` never reports that nothing was
/// left to apply.
pub proof fn lemma_swallowed_completion(settings: MigratorSettings, outcome: Result<(), Error>)
    requires
        settings.swallow_completion,
    ensures
        !(apply_result(settings, outcome) matches Err(e) && e.kind is MigrationComplete),
{
}

/// A faked run never runs a migration: it only records tags.
pub proof fn lemma_fake_never_runs(settings: MigratorSettings, state: ApplyState, event: ApplyEvent, r: ApplyStep)
    requires
        settings.fake,
        step_taken(settings, state, event, r),
    ensures
        !(r.action is RunMigration),
{
}

/// Past its first migration, a run (with `all` set) ends without error once
/// nothing is left to apply: it never ends with `MigrationComplete`.
pub proof fn lemma_nested_never_complete(settings: MigratorSettings, state: ApplyState, event: ApplyEvent, r: ApplyStep)
    requires
        state.nested,
        step_taken(settings, state, event, r),
    ensures
        !(r.action matches ApplyAction::Finish(Err(e)) && e.kind is MigrationComplete),
{
}

/// Without `all`, a run never goes past its first migration: it finishes
/// after the configuration is reloaded.
pub proof fn lemma_single_without_all(settings: MigratorSettings, state: ApplyState, event: ApplyEvent, r: ApplyStep)
    requires
        !settings.all,
        !state.nested,
        step_taken(settings, state, event, r),
    ensures
        !r.state.nested,
        !(r.action is LoadMigrations),
{
}


/// A run that finds every migration already applied (going up), or no
/// applied migration (going down), ends at once with `MigrationComplete`,
/// and `apply` returns that error unless `swallow_completion` is set.
pub proof fn lemma_nothing_left_is_complete(
    settings: MigratorSettings,
    state: ApplyState,
    event: ApplyEvent,
    r: ApplyStep,
)
    requires
        !state.nested,
        step_taken(settings, state, event, r),
        event matches ApplyEvent::Migrations { tags, descriptions, applied } && (
            (settings.direction == Direction::Up && all_applied(strings_view(tags@), strings_view(applied@)))
            || (settings.direction == Direction::Down && applied@.len() == 0)),
    ensures
        r.action matches ApplyAction::Finish(Err(e)) && e.kind is MigrationComplete
            && (apply_result(settings, Err(e)) is Err) == !settings.swallow_completion,
{
}

/// With `force` set, a failed migration does not stop the run: its tag is
/// recorded as if it had been applied.
pub proof fn lemma_force_continues(settings: MigratorSettings, state: ApplyState, msg: String, r: ApplyStep)
    requires
        settings.force,
        step_taken(settings, state, ApplyEvent::Ran(Err(msg)), r),
    ensures
        r.action matches ApplyAction::RecordTag { direction, tag } && direction == settings.direction,
{
}

/// With output off, a run shows nothing.
pub proof fn lemma_quiet_shows_nothing(settings: MigratorSettings, state: ApplyState, event: ApplyEvent, r: ApplyStep)
    requires
        !settings.show_output,
        step_taken(settings, state, event, r),
    ensures
        r.output@ == Seq::<char>::empty(),
{
}

/// With `all` set, a run ends without error only once a later round finds
/// nothing left to apply, or the caller reports that nothing is left.
pub proof fn lemma_all_runs_until_complete(settings: MigratorSettings, state: ApplyState, event: ApplyEvent, r: ApplyStep)
    requires
        settings.all,
        step_taken(settings, state, event, r),
        r.action == ApplyAction::Finish(Ok(())),
    ensures
        state.nested,
        match event {
            ApplyEvent::Migrations { tags, descriptions, applied } =>
                (settings.direction == Direction::Up && all_applied(strings_view(tags@), strings_view(applied@)))
                || (settings.direction == Direction::Down && applied@.len() == 0),
            ApplyEvent::MigrationsFailed(e) => e.kind is MigrationComplete,
            ApplyEvent::Recorded(Err(e)) => e.kind is MigrationComplete,
            ApplyEvent::Reloaded(Err(e)) => e.kind is MigrationComplete,
            _ => false,
        },
{
}

/// With or without `swallow_completion`, `apply` returns success and every
/// error other than `MigrationComplete` unchanged; without it, it returns
/// whatever the run finished with.
pub proof fn lemma_apply_keeps_other_errors(settings: MigratorSettings, outcome: Result<(), Error>)
    ensures
        outcome is Ok ==> apply_result(settings, outcome) == outcome,
        (outcome matches Err(e) && !(e.kind is MigrationComplete)) ==> apply_result(settings, outcome) == outcome,
        !settings.swallow_completion ==> apply_result(settings, outcome) == outcome,
        (settings.swallow_completion && (outcome matches Err(e) && e.kind is MigrationComplete))
            ==> apply_result(settings, outcome) == Ok::<(), Error>(()),
{
}

/// An error the caller reports (finding the migrations, recording or removing
/// a tag, reloading the configuration) ends the run at once with that error:
/// nothing more is run, recorded or reloaded. Only past its first migration is
/// a `MigrationComplete` error taken as success.
pub proof fn lemma_reported_error_ends_run(
    settings: MigratorSettings,
    state: ApplyState,
    event: ApplyEvent,
    e: Error,
    r: ApplyStep,
)
    requires
        event == ApplyEvent::MigrationsFailed(e) || event == ApplyEvent::Recorded(Err(e))
            || event == ApplyEvent::Reloaded(Err(e)),
        step_taken(settings, state, event, r),
    ensures
        r.state.pending is Done,
        r.state.nested == state.nested,
        r.output@ == Seq::<char>::empty(),
        !(state.nested && e.kind is MigrationComplete) ==> r.action == ApplyAction::Finish(Err(e)),
        (state.nested && e.kind is MigrationComplete) ==> r.action == ApplyAction::Finish(Ok(())),
{
}

/// Going down, when no available migration carries the last applied tag,
/// the run ends with a `MigrationNotFound` error naming that tag: no
/// migration is reverted and no tag removed.
pub proof fn lemma_down_missing_tag_fails(
    settings: MigratorSettings,
    state: ApplyState,
    tags: Vec<String>,
    descriptions: Vec<String>,
    applied: Vec<String>,
    r: ApplyStep,
)
    requires
        settings.direction == Direction::Down,
        applied@.len() > 0,
        !strings_view(tags@).contains(applied@.last()@),
        step_taken(settings, state, (ApplyEvent::Migrations { tags, descriptions, applied }), r),
    ensures
        r.state.pending is Done,
        r.output@ == Seq::<char>::empty(),
        r.action matches ApplyAction::Finish(Err(e)),
        r.action matches ApplyAction::Finish(Err(e)) ==> (e.kind matches ErrorKind::MigrationNotFound(m)
            && m@ == "Tag not found: "@ + applied@.last()@),
{
    assert(strings_view(applied@).last() == applied@.last()@);
}

/// A migration that fails stops the run, unless `force` is set: the run ends
/// with a `Migration` error that carries the failure's message, and the
/// migration's tag is neither recorded nor removed.
pub proof fn lemma_failed_migration_stops(settings: MigratorSettings, state: ApplyState, msg: String, r: ApplyStep)
    requires
        !settings.force,
        step_taken(settings, state, ApplyEvent::Ran(Err(msg)), r),
    ensures
        r.state.pending is Done,
        r.action matches ApplyAction::Finish(Err(e)),
        r.action matches ApplyAction::Finish(Err(e)) ==> (e.kind matches ErrorKind::Migration(m)
            && m@.len() >= msg@.len() && m@.skip(m@.len() - msg@.len()) == msg@),
{
    if r.action matches ApplyAction::Finish(Err(e)) {
        let m = "Migration was unsucessful...\n"@;
        assert((m + msg@).skip(m.len() as int) =~= msg@);
    }
}

/// A migration that ran (or failed with `force` set) has its own tag, the
/// one the run waited on, recorded (going up) or removed (going down).
pub proof fn lemma_ran_records_its_tag(
    settings: MigratorSettings,
    state: ApplyState,
    outcome: Result<(), String>,
    r: ApplyStep,
)
    requires
        outcome is Ok || settings.force,
        step_taken(settings, state, ApplyEvent::Ran(outcome), r),
    ensures
        state.pending matches Pending::Run { tag: t } && (r.action matches ApplyAction::RecordTag { direction, tag }
            && direction == settings.direction && tag@ == t@),
        r.state.pending is Record,
{
}

proof fn lemma_first_unapplied_exists(available: Seq<Seq<char>>, applied: Seq<Seq<char>>, j: int)
    requires
        0 <= j < available.len(),
        !applied.contains(available[j]),
    ensures
        is_first_unapplied(available, applied, chosen_index(Direction::Up, available, applied)),
    decreases j,
{
    if forall|k: int| 0 <= k < j ==> applied.contains(#[trigger] available[k]) {
        assert(is_first_unapplied(available, applied, j));
    } else {
        let k = choose|k: int| 0 <= k < j && !applied.contains(#[trigger] available[k]);
        lemma_first_unapplied_exists(available, applied, k);
    }
}

/// When the migrations are found, a step runs, fakes or records only an
/// available migration, in the run's direction: going up one whose tag has
/// not been applied, going down one that carries the last applied tag.
pub proof fn lemma_step_acts_on_available(
    settings: MigratorSettings,
    state: ApplyState,
    tags: Vec<String>,
    descriptions: Vec<String>,
    applied: Vec<String>,
    r: ApplyStep,
)
    requires
        tags@.len() <= usize::MAX,
        step_taken(settings, state, (ApplyEvent::Migrations { tags, descriptions, applied }), r),
    ensures
        r.action matches ApplyAction::RunMigration { index, direction } ==> {
            &&& index < tags@.len()
            &&& direction == settings.direction
            &&& settings.direction == Direction::Up ==> !strings_view(applied@).contains(tags@[index as int]@)
            &&& settings.direction == Direction::Down ==> applied@.len() > 0
                && tags@[index as int]@ == applied@.last()@
        },
        r.action matches ApplyAction::RecordTag { direction, tag } ==> {
            &&& strings_view(tags@).contains(tag@)
            &&& direction == settings.direction
            &&& settings.direction == Direction::Up ==> !strings_view(applied@).contains(tag@)
            &&& settings.direction == Direction::Down ==> applied@.len() > 0 && tag@ == applied@.last()@
        },
{
    let avail = strings_view(tags@);
    let done = strings_view(applied@);
    if r.action is RunMigration || r.action is RecordTag {
        if settings.direction == Direction::Up {
            assert(!all_applied(avail, done));
            let j = choose|j: int| 0 <= j < avail.len() && !done.contains(#[trigger] avail[j]);
            lemma_first_unapplied_exists(avail, done, j);
        } else {
            assert(done.len() > 0 && avail.contains(done.last()));
            lemma_last_with_tag_exists(avail, done.last());
            assert(seq![done.last()].last() == done.last());
            assert(done.last() == applied@.last()@);
        }
        let i = chosen_index(settings.direction, avail, done);
        assert(avail[i] == tags@[i]@);
        assert(done.len() == applied@.len());
        match r.action {
            ApplyAction::RunMigration { index, direction } => {
                assert(index as int == i);
            },
            _ => {},
        }
    }
}

/// The indices, from `j` on and in order, of the migrations whose tag has not
/// been applied.
pub open spec fn unapplied_from(available: Seq<Seq<char>>, applied: Seq<Seq<char>>, j: int) -> Seq<int>
    decreases available.len() - j,
{
    if j < 0 || j >= available.len() {
        Seq::empty()
    } else if applied.contains(available[j]) {
        unapplied_from(available, applied, j + 1)
    } else {
        seq![j] + unapplied_from(available, applied, j + 1)
    }
}

/// The applied tags at round `k` of a run going up: the first ones, followed
/// by the tags of the migrations applied in the rounds before.
pub open spec fn round_applied(available: Seq<Seq<char>>, applied: Seq<Seq<char>>, k: int) -> Seq<Seq<char>> {
    applied + tags_at(available, unapplied_from(available, applied, 0).take(k))
}

/// The tags of the migrations at the given indices.
pub open spec fn tags_at(available: Seq<Seq<char>>, idx: Seq<int>) -> Seq<Seq<char>> {
    idx.map_values(|j: int| available[j])
}

proof fn lemma_unapplied_from(available: Seq<Seq<char>>, applied: Seq<Seq<char>>, j: int)
    requires
        0 <= j,
    ensures
        forall|k: int| 0 <= k < unapplied_from(available, applied, j).len()
            ==> j <= #[trigger] unapplied_from(available, applied, j)[k] < available.len(),
        forall|k: int, l: int| 0 <= k < l < unapplied_from(available, applied, j).len()
            ==> #[trigger] unapplied_from(available, applied, j)[k] < #[trigger] unapplied_from(available, applied, j)[l],
        forall|m: int| j <= m < available.len() && !applied.contains(available[m])
            ==> #[trigger] unapplied_from(available, applied, j).contains(m),
        forall|m: int| #[trigger] unapplied_from(available, applied, j).contains(m) ==> !applied.contains(available[m]),
    decreases available.len() - j,
{
    if j < available.len() {
        lemma_unapplied_from(available, applied, j + 1);
        let rest = unapplied_from(available, applied, j + 1);
        let here = unapplied_from(available, applied, j);
        if !applied.contains(available[j]) {
            assert(here == seq![j] + rest);
            assert forall|k: int| 0 <= k < here.len() implies j <= #[trigger] here[k] < available.len() by {
                if k > 0 { assert(here[k] == rest[k - 1]); }
            }
            assert forall|k: int, l: int| 0 <= k < l < here.len() implies #[trigger] here[k] < #[trigger] here[l] by {
                assert(here[l] == rest[l - 1]);
                if k > 0 { assert(here[k] == rest[k - 1]); }
            }
            assert forall|m: int| j <= m < available.len() && !applied.contains(available[m])
                implies #[trigger] here.contains(m) by {
                if m == j {
                    assert(here[0] == j);
                } else {
                    assert(rest.contains(m));
                    let k = rest.index_of(m);
                    assert(here[k + 1] == m);
                }
            }
            assert forall|m: int| #[trigger] here.contains(m) implies !applied.contains(available[m]) by {
                let k = here.index_of(m);
                if k > 0 {
                    assert(rest[k - 1] == m);
                    assert(rest.contains(m));
                }
            }
        }
    }
}


proof fn lemma_round_applied_contains(available: Seq<Seq<char>>, applied: Seq<Seq<char>>, k: int, m: int)
    requires
        tags_unique(available),
        0 <= k <= unapplied_from(available, applied, 0).len(),
        0 <= m < available.len(),
    ensures
        round_applied(available, applied, k).contains(available[m])
            <==> (applied.contains(available[m]) || unapplied_from(available, applied, 0).take(k).contains(m)),
{
    lemma_unapplied_from(available, applied, 0);
    let order = unapplied_from(available, applied, 0);
    let t = order.take(k);
    let done = round_applied(available, applied, k);
    if done.contains(available[m]) {
        let p = done.index_of(available[m]);
        if p >= applied.len() {
            let q = p - applied.len();
            assert(tags_at(available, t)[q] == available[t[q]]);
            assert(t[q] == order[q]);
            assert(0 <= order[q] < available.len());
            if t[q] != m {
                if t[q] < m { assert(available[t[q]] != available[m]); }
                else { assert(available[m] != available[t[q]]); }
            }
        } else {
            assert(applied[p] == available[m]);
        }
    }
    if applied.contains(available[m]) {
        let p = applied.index_of(available[m]);
        assert(done[p] == available[m]);
    }
    if t.contains(m) {
        let q = t.index_of(m);
        assert(tags_at(available, t)[q] == available[m]);
        assert(done[applied.len() + q] == available[m]);
    }
}

/// With unique tags, going up with `all` set and a store that records each
/// tag it is given applies every migration whose tag was not applied exactly
/// once, in their order, and then finds nothing left: the migration chosen in
/// round `k` (when the applied tags are the first ones followed by the tags of
/// the rounds before) is the `k`-th unapplied one, and after the last round
/// every tag is applied.
pub proof fn lemma_up_run_applies_each_once(available: Seq<Seq<char>>, applied: Seq<Seq<char>>)
    requires
        tags_unique(available),
    ensures
        forall|k: int| 0 <= k < unapplied_from(available, applied, 0).len() ==> {
            &&& is_first_unapplied(available, round_applied(available, applied, k),
                #[trigger] unapplied_from(available, applied, 0)[k])
            &&& chosen_index(Direction::Up, available, round_applied(available, applied, k))
                == unapplied_from(available, applied, 0)[k]
        },
        all_applied(available, applied + tags_at(available, unapplied_from(available, applied, 0))),
        forall|m: int| 0 <= m < available.len() && !applied.contains(available[m])
            ==> #[trigger] unapplied_from(available, applied, 0).contains(m),
        forall|k: int, l: int| 0 <= k < l < unapplied_from(available, applied, 0).len()
            ==> #[trigger] unapplied_from(available, applied, 0)[k] < #[trigger] unapplied_from(available, applied, 0)[l],
{
    let order = unapplied_from(available, applied, 0);
    lemma_unapplied_from(available, applied, 0);
    assert forall|k: int| 0 <= k < order.len() implies {
        &&& is_first_unapplied(available, round_applied(available, applied, k), #[trigger] order[k])
        &&& chosen_index(Direction::Up, available, round_applied(available, applied, k)) == order[k]
    } by {
        let done = round_applied(available, applied, k);
        let i = order[k];
        lemma_round_applied_contains(available, applied, k, i);
        assert(order.contains(i));
        assert(!order.take(k).contains(i)) by {
            if order.take(k).contains(i) {
                let q = order.take(k).index_of(i);
                assert(order[q] == i);
            }
        }
        assert(!done.contains(available[i]));
        assert forall|m: int| 0 <= m < i implies done.contains(#[trigger] available[m]) by {
            lemma_round_applied_contains(available, applied, k, m);
            if !applied.contains(available[m]) {
                assert(order.contains(m));
                let q = order.index_of(m);
                if q >= k {
                    if q > k { assert(order[k] < order[q]); }
                }
                assert(order.take(k)[q] == m);
            }
        }
        assert(is_first_unapplied(available, done, i));
        let c = chosen_index(Direction::Up, available, done);
        lemma_first_unapplied_unique(available, done, i, c);
    }
    assert(order.take(order.len() as int) =~= order);
    assert(round_applied(available, applied, order.len() as int) == applied + tags_at(available, order));
    assert forall|m: int| 0 <= m < available.len() implies
        (applied + tags_at(available, order)).contains(#[trigger] available[m]) by {
        lemma_round_applied_contains(available, applied, order.len() as int, m);
        if !applied.contains(available[m]) {
            assert(order.contains(m));
        }
    }
}

proof fn lemma_last_with_tag_exists(available: Seq<Seq<char>>, tag: Seq<char>)
    requires
        available.contains(tag),
    ensures
        is_last_with_tag(available, tag, chosen_index(Direction::Down, available, seq![tag])),
    decreases available.len(),
{
    if available.last() == tag {
        assert(is_last_with_tag(available, tag, available.len() - 1));
    } else {
        let p = available.index_of(tag);
        let d = available.drop_last();
        assert(d[p] == tag);
        lemma_last_with_tag_exists(d, tag);
        assert(seq![tag].last() == tag);
        let i = chosen_index(Direction::Down, d, seq![tag]);
        assert(is_last_with_tag(d, tag, i));
        assert(available[i] == d[i]);
        assert forall|j: int| i < j < available.len() implies #[trigger] available[j] != tag by {
            if j < available.len() - 1 {
                assert(available[j] == d[j]);
            }
        }
        assert(is_last_with_tag(available, tag, i));
    }
    assert(seq![tag].last() == tag);
}

/// Going down with `all` set and a store that removes each tag it is given,
/// when every applied tag is available, the migrations of the applied tags
/// are reverted exactly once each, the last applied first, and then nothing is
/// left: in round `k` the applied tags are the first `len - k` ones, and the
/// migration chosen is the last one carrying the tag applied `k`-th from the
/// end.
pub proof fn lemma_down_run_reverts_each_once(available: Seq<Seq<char>>, applied: Seq<Seq<char>>)
    requires
        forall|j: int| 0 <= j < applied.len() ==> available.contains(#[trigger] applied[j]),
    ensures
        forall|k: int| 0 <= k < applied.len() ==> {
            &&& #[trigger] applied.take(applied.len() - k).len() > 0
            &&& applied.take(applied.len() - k).last() == applied[applied.len() - 1 - k]
            &&& available.contains(applied.take(applied.len() - k).last())
            &&& is_last_with_tag(available, applied[applied.len() - 1 - k],
                chosen_index(Direction::Down, available, applied.take(applied.len() - k)))
        },
        applied.take(0).len() == 0,
{
    assert forall|k: int| 0 <= k < applied.len() implies {
        &&& #[trigger] applied.take(applied.len() - k).len() > 0
        &&& applied.take(applied.len() - k).last() == applied[applied.len() - 1 - k]
        &&& available.contains(applied.take(applied.len() - k).last())
        &&& is_last_with_tag(available, applied[applied.len() - 1 - k],
            chosen_index(Direction::Down, available, applied.take(applied.len() - k)))
    } by {
        let done = applied.take(applied.len() - k);
        let t = applied[applied.len() - 1 - k];
        assert(done.last() == t);
        assert(available.contains(t));
        lemma_last_with_tag_exists(available, t);
        assert(seq![t].last() == t);
    }
}

impl<C> Migrator<C> {
    fn shown_text(&self, s: String) -> (r: String)
        ensures
            r@ == shown(self.settings(), s@),
    {
        if self.show_output { s } else { String::new() }
    }

    /// The first step of a run: find the available migrations.
    pub fn begin(&self) -> (r: ApplyStep)
        ensures
            !r.state.nested,
            r.state.pending is Migrations,
            r.action == ApplyAction::LoadMigrations,
            r.output@ == Seq::<char>::empty(),
    {
        ApplyStep {
            state: ApplyState { nested: false, pending: Pending::Migrations },
            action: ApplyAction::LoadMigrations,
            output: String::new(),
        }
    }

    /// Whether the event answers what the state waits for.
    pub fn accepts(state: &ApplyState, event: &ApplyEvent) -> (r: bool)
        ensures
            r == fits(*state, *event),
    {
        match event {
            ApplyEvent::Migrations { tags, descriptions, applied } =>
                matches!(state.pending, Pending::Migrations) && tags.len() == descriptions.len(),
            ApplyEvent::MigrationsFailed(_) => matches!(state.pending, Pending::Migrations),
            ApplyEvent::Ran(_) => matches!(state.pending, Pending::Run { .. }),
            ApplyEvent::Recorded(_) => matches!(state.pending, Pending::Record { .. }),
            ApplyEvent::Reloaded(_) => matches!(state.pending, Pending::Reload),
        }
    }

    fn finish(nested: bool, res: Result<(), Error>, output: String) -> (r: ApplyStep)
        ensures
            r.state.pending is Done,
            r.state.nested == nested,
            r.action == ApplyAction::Finish(round_result(nested, res)),
            r.output == output,
    {
        let res = match res {
            Err(e) => if nested && e.is_migration_complete() { Ok(()) } else { Err(e) },
            ok => ok,
        };
        ApplyStep {
            state: ApplyState { nested, pending: Pending::Done },
            action: ApplyAction::Finish(res),
            output,
        }
    }

    /// The next step of a run, given what the caller reports.
    pub fn step(&self, state: ApplyState, event: ApplyEvent) -> (r: ApplyStep)
        requires
            fits(state, event),
        ensures
            step_taken(self.settings(), state, event, r),
    {
        let nested = state.nested;
        match event {
            ApplyEvent::Migrations { tags, descriptions, applied } => {
                let ghost avail = strings_view(tags@);
                let ghost done = strings_view(applied@);
                match next_available(&self.direction, tags.as_slice(), applied.as_slice()) {
                    Err(e) => Self::finish(nested, Err(e), String::new()),
                    Ok(None) => {
                        let m = join3("No un-applied `", self.direction.as_str(), "` migrations found");
                        Self::finish(nested, Err(Error::from_kind(ErrorKind::MigrationComplete(m))), String::new())
                    },
                    Ok(Some(i)) => {
                        proof {
                            let c = chosen_index(self.direction, avail, done);
                            if self.direction == Direction::Up {
                                lemma_first_unapplied_unique(avail, done, i as int, c);
                            } else {
                                lemma_last_with_tag_unique(avail, done.last(), i as int, c);
                            }
                        }
                        let tag = tags[i].clone();
                        let head = join3("Applying[", self.direction.as_str(), "]: ");
                        let head = head.concat(descriptions[i].as_str());
                        if self.fake {
                            let text = head.concat("  \u{2713} (fake)\n");
                            ApplyStep {
                                state: ApplyState { nested, pending: Pending::Record { tag: tag.clone() } },
                                action: ApplyAction::RecordTag { direction: self.direction, tag },
                                output: self.shown_text(text),
                            }
                        } else {
                            ApplyStep {
                                state: ApplyState { nested, pending: Pending::Run { tag } },
                                action: ApplyAction::RunMigration { index: i, direction: self.direction },
                                output: self.shown_text(head),
                            }
                        }
                    },
                }
            },
            ApplyEvent::MigrationsFailed(e) => Self::finish(nested, Err(e), String::new()),
            ApplyEvent::Ran(outcome) => {
                let tag = match state.pending {
                    Pending::Run { tag } => tag,
                    _ => String::new(),
                };
                match outcome {
                    Ok(()) => ApplyStep {
                        state: ApplyState { nested, pending: Pending::Record { tag: tag.clone() } },
                        action: ApplyAction::RecordTag { direction: self.direction, tag },
                        output: self.shown_text(String::from_str("  \u{2713}\n")),
                    },
                    Err(msg) => {
                        if self.force {
                            let text = join3("\n", " ** Error ** (Continuing because `--force` flag was specified)\n ** ", msg.as_str());
                            let text = text.concat("\n");
                            ApplyStep {
                                state: ApplyState { nested, pending: Pending::Record { tag: tag.clone() } },
                                action: ApplyAction::RecordTag { direction: self.direction, tag },
                                output: self.shown_text(text),
                            }
                        } else {
                            let m = join2("Migration was unsucessful...\n", msg.as_str());
                            Self::finish(nested, Err(Error::from_kind(ErrorKind::Migration(m))),
                                self.shown_text(String::from_str("\n")))
                        }
                    },
                }
            },
            ApplyEvent::Recorded(Ok(())) => ApplyStep {
                state: ApplyState { nested, pending: Pending::Reload },
                action: ApplyAction::Reload,
                output: String::new(),
            },
            ApplyEvent::Recorded(Err(e)) => Self::finish(nested, Err(e), String::new()),
            ApplyEvent::Reloaded(Ok(())) => {
                if self.all {
                    ApplyStep {
                        state: ApplyState { nested: true, pending: Pending::Migrations },
                        action: ApplyAction::LoadMigrations,
                        output: String::new(),
                    }
                } else {
                    Self::finish(nested, Ok(()), String::new())
                }
            },
            ApplyEvent::Reloaded(Err(e)) => Self::finish(nested, Err(e), String::new()),
        }
    }

    /// Apply migrations using current configuration: the result of a run,
    /// given the result its steps finished with. A `MigrationComplete` error
    /// (all migrations in the direction were already applied) is returned
    /// unless `swallow_completion` is set.
    pub fn apply(&self, outcome: Result<(), Error>) -> (r: Result<(), Error>)
        ensures
            r == apply_result(self.settings(), outcome),
    {
        if self.swallow_completion {
            match outcome {
                Err(e) => if e.is_migration_complete() { Ok(()) } else { Err(e) },
                ok => ok,
            }
        } else {
            outcome
        }
    }
}

} // verus!
